//! Setting up the interrupt controller that the ACPI tables describe.

use crate::consts::AFFINITY_MASK;
use crate::dtb::tree;
use crate::dtb::tree::{DtDevice, DtRegion};
use crate::dtb::walk;
use crate::secondary;
use crate::secondary::{ApOutcome, MadtGicc, SecondaryBoot};
use vstd::prelude::*;

verus! {

/// Offset of the register that holds the architecture version.
pub const GICD_PIDR2: u64 = 0xFE8;

/// Size of a redistributor whose size is not given.
pub const DEFAULT_GICR_SIZE: usize = 0x20000;

/// The GIC distributor, as the ACPI tables list it.
#[derive(Clone, Copy, Debug, PartialEq, Eq, Structural)]
pub struct MadtGicd {
    /// Its physical address.
    pub physical_base_address: u64,
    /// Its architecture version.
    pub gic_version: u8,
}

/// An entry of the interrupt-controller table.
#[derive(Clone, Copy, Debug, PartialEq, Eq, Structural)]
pub enum MadtEntry {
    /// A CPU interface.
    Gicc(MadtGicc),
    /// The distributor.
    Gicd(MadtGicd),
    /// Anything else.
    Other,
}

/// What the table comes to.
#[derive(Clone, Debug)]
pub struct MadtInit {
    /// The CPU interfaces, in order.
    pub giccs: Vec<MadtGicc>,
    /// The number of processors, if it is to be recorded.
    pub cpu_count: Option<u32>,
    /// The distributor, if there is one.
    pub gicd: Option<MadtGicd>,
}

/// The controllers to set up once the distributor is known.
#[derive(Clone, Debug)]
pub enum GicSetup {
    /// One controller for each CPU interface, at these physical addresses.
    V2 {
        /// The physical addresses.
        cpu_interfaces: Vec<u64>,
    },
    /// So many controllers, each with all redistributors.
    V3 {
        /// Number of controllers.
        cpus: usize,
        /// Address and size of each redistributor.
        gicrs: Vec<(usize, usize)>,
    },
    /// None: the version is not supported.
    Unsupported,
}

/// What the device tree asks for when there are no ACPI tables.
#[derive(Clone, Copy, Debug, PartialEq, Eq, Structural)]
pub enum DtbInit {
    /// There is one processor: nothing is to be started.
    SingleCpu,
    /// All of so many processors are to be started.
    StartAll(usize),
    /// Starting processors is not built in.
    NotBuiltIn,
}

/// The version that the architecture field of `GICD_PIDR2` stands for.
pub open spec fn version_of_pidr2(pidr2: u32) -> Option<u8> {
    let arch_rev = pidr2 / 16 % 16;
    if arch_rev == 1 || arch_rev == 2 {
        Some(2u8)
    } else if arch_rev == 3 {
        Some(3u8)
    } else {
        None
    }
}

/// The address of `GICD_PIDR2` of a distributor.
pub fn pidr2_address(distributor: u64) -> (address: u64)
    requires
        distributor + GICD_PIDR2 <= u64::MAX,
    ensures
        address == distributor + GICD_PIDR2,
        address - distributor == 0xFE8,
{
    distributor + GICD_PIDR2
}

/// Reads the version of the distributor from its `GICD_PIDR2`.
pub fn detect_gic_version_from_hardware(pidr2: u32) -> (version: Option<u8>)
    ensures
        version == version_of_pidr2(pidr2),
{
    assert((pidr2 >> 4u32) & 0xF == pidr2 / 16 % 16) by (bit_vector);
    let arch_rev: u8 = ((pidr2 >> 4u32) & 0xF) as u8;
    match arch_rev {
        1 | 2 => Some(2),
        3 => Some(3),
        _ => None,
    }
}

/// The version that the device tree names: three before two.
pub open spec fn version_in_dtb(dtb: Option<Seq<u8>>) -> Option<u8> {
    match dtb {
        Some(data) => if tree::fdt_compatible(data, seq!["arm,gic-v3"@]) is Some {
            Some(3u8)
        } else if tree::fdt_compatible(
            data,
            seq!["arm,cortex-a15-gic"@, "arm,gic-400"@],
        ) is Some {
            Some(2u8)
        } else {
            None
        },
        None => None,
    }
}

/// The bytes of a device tree that may be missing.
pub open spec fn opt_bytes(dtb: Option<&[u8]>) -> Option<Seq<u8>> {
    match dtb {
        Some(data) => Some(data@),
        None => None,
    }
}

/// Finds the GICv3 of a device tree.
fn find_gicv3(dtb: &[u8]) -> (device: Option<DtDevice>)
    requires
        walk::readable(dtb@),
    ensures
        tree::opt_device_view(device) == tree::fdt_compatible(dtb@, seq!["arm,gic-v3"@]),
{
    let with: Vec<&str> = vec!["arm,gic-v3"];
    assert(tree::texts_view(with@) =~= seq!["arm,gic-v3"@]);
    tree::compatible_device(dtb, with.as_slice())
}

/// Reads the version of the interrupt controller from the device tree, if there
/// is one.
pub fn detect_gic_version_from_fdt(dtb: Option<&[u8]>) -> (version: Option<u8>)
    requires
        dtb matches Some(data) ==> walk::readable(data@),
    ensures
        version == version_in_dtb(opt_bytes(dtb)),
{
    match dtb {
        Some(data) => {
            if find_gicv3(data).is_some() {
                return Some(3);
            }
            let with: Vec<&str> = vec!["arm,cortex-a15-gic", "arm,gic-400"];
            assert(tree::texts_view(with@) =~= seq!["arm,cortex-a15-gic"@, "arm,gic-400"@]);
            if tree::compatible_device(data, with.as_slice()).is_some() {
                return Some(2);
            }
            None
        },
        None => None,
    }
}

/// The number of redistributor regions that a device announces: one if it does
/// not say.
pub open spec fn announced_regions(props: Seq<tree::PropView>) -> usize {
    match tree::find_value(props, "#redistributor-regions"@) {
        Some(value) => match tree::number_of(value) {
            Some(number) => number,
            None => 1,
        },
        None => 1,
    }
}

/// The redistributor regions among the regions of a device: those behind the
/// first, which is the distributor, as many as are announced.
pub open spec fn redistributor_part(regions: Seq<tree::RegionView>, announced: usize) -> Seq<
    tree::RegionView,
> {
    if regions.len() == 0 {
        regions
    } else if announced < regions.len() - 1 {
        regions.subrange(1, 1 + announced)
    } else {
        regions.skip(1)
    }
}

/// Picks the redistributor regions of a GICv3.
pub fn redistributor_regions_of(device: &DtDevice) -> (regions: Vec<DtRegion>)
    requires
        device.reg is Some,
    ensures
        device@.1 matches Some(all) ==> tree::regions_view(regions@) == redistributor_part(
            all,
            announced_regions(device@.0),
        ),
{
    let announced: usize = match tree::property(&device.props, "#redistributor-regions") {
        Some(value) => match tree::prop_number(value.as_slice()) {
            Some(number) => number,
            None => 1,
        },
        None => 1,
    };
    let mut regions: Vec<DtRegion> = Vec::new();
    if let Some(all) = &device.reg {
        let ghost views = tree::regions_view(all@);
        let mut i: usize = 1;
        while i < all.len() && i - 1 < announced
            invariant
                1 <= i,
                all@.len() > 0 ==> i <= all@.len(),
                all@.len() == 0 ==> i == 1,
                i - 1 <= announced,
                views == tree::regions_view(all@),
                regions@.len() == i - 1,
                forall|j: int| 0 <= j < i - 1 ==> regions@[j] == all@[j + 1],
            decreases all@.len() - i,
        {
            regions.push(all[i]);
            i = i + 1;
        }
        let ghost part = redistributor_part(views, announced);
        assert(part.len() == regions@.len());
        assert forall|j: int| 0 <= j < part.len() implies part[j] == regions@[j]@ by {
            assert(part[j] == views[j + 1]);
        }
        assert(tree::regions_view(regions@) =~= part);
    }
    regions
}

/// The redistributor regions of a device tree: none without a tree or without a
/// GICv3, and nothing known if the GICv3 has no readable `reg`.
pub open spec fn regions_in_dtb(dtb: Option<Seq<u8>>) -> Option<Seq<tree::RegionView>> {
    match dtb {
        Some(data) => match tree::fdt_compatible(data, seq!["arm,gic-v3"@]) {
            Some(device) => match device.1 {
                Some(regions) => Some(redistributor_part(regions, announced_regions(device.0))),
                None => None,
            },
            None => Some(Seq::empty()),
        },
        None => Some(Seq::empty()),
    }
}

/// Reads the redistributor regions from the device tree, if there is one; there
/// is no answer if the GICv3 has no readable `reg`.
pub fn gicv3_redistributor_regions(dtb: Option<&[u8]>) -> (regions: Option<Vec<DtRegion>>)
    requires
        dtb matches Some(data) ==> walk::readable(data@),
    ensures
        regions is Some <==> regions_in_dtb(opt_bytes(dtb)) is Some,
        regions matches Some(list) ==> regions_in_dtb(opt_bytes(dtb)) == Some(
            tree::regions_view(list@),
        ),
{
    let none: Vec<DtRegion> = Vec::new();
    assert(tree::regions_view(none@) =~= Seq::empty());
    match dtb {
        Some(data) => match find_gicv3(data) {
            Some(device) => {
                if device.reg.is_some() {
                    Some(redistributor_regions_of(&device))
                } else {
                    None
                }
            },
            None => Some(none),
        },
        None => Some(none),
    }
}

/// The redistributors behind regions, given the address at which each is
/// reached: a region without an address is left out, and one without a size has
/// the customary one.
pub open spec fn redistributors(
    regions: Seq<tree::RegionView>,
    mmio: Seq<Option<usize>>,
) -> Seq<(usize, usize)>
    decreases regions.len(),
{
    if regions.len() == 0 {
        Seq::empty()
    } else {
        let before = redistributors(regions.drop_last(), mmio.drop_last());
        match mmio.last() {
            Some(address) => before.push(
                (
                    address,
                    match regions.last().1 {
                        Some(size) => size,
                        None => DEFAULT_GICR_SIZE,
                    },
                ),
            ),
            None => before,
        }
    }
}

/// Lists the redistributors behind regions, given the address at which each is
/// reached.
pub fn redistributors_at(regions: &Vec<DtRegion>, mmio: &Vec<Option<usize>>) -> (gicrs: Vec<
    (usize, usize),
>)
    requires
        mmio@.len() == regions@.len(),
    ensures
        gicrs@ == redistributors(tree::regions_view(regions@), mmio@),
{
    let ghost views = tree::regions_view(regions@);
    let mut gicrs: Vec<(usize, usize)> = Vec::new();
    let mut i: usize = 0;
    while i < regions.len()
        invariant
            i <= regions@.len() == mmio@.len(),
            views == tree::regions_view(regions@),
            gicrs@ == redistributors(views.take(i as int), mmio@.take(i as int)),
        decreases regions@.len() - i,
    {
        proof {
            assert(views.take(i + 1).drop_last() =~= views.take(i as int));
            assert(mmio@.take(i + 1).drop_last() =~= mmio@.take(i as int));
        }
        if let Some(address) = mmio[i] {
            let size: usize = match regions[i].size {
                Some(size) => size,
                None => DEFAULT_GICR_SIZE,
            };
            gicrs.push((address, size));
        }
        i = i + 1;
    }
    assert(views.take(regions@.len() as int) =~= views);
    assert(mmio@.take(mmio@.len() as int) =~= mmio@);
    gicrs
}

/// Every redistributor is reached at the address of a region, with the size of
/// that region or the customary one.
pub proof fn lemma_redistributors_come_from_regions(
    regions: Seq<tree::RegionView>,
    mmio: Seq<Option<usize>>,
    k: int,
) -> (i: int)
    requires
        mmio.len() == regions.len(),
        0 <= k < redistributors(regions, mmio).len(),
    ensures
        redistributors(regions, mmio).len() <= regions.len(),
        k <= i < regions.len(),
        mmio[i] == Some(redistributors(regions, mmio)[k].0),
        redistributors(regions, mmio)[k].1 == (match regions[i].1 {
            Some(size) => size,
            None => DEFAULT_GICR_SIZE,
        }),
    decreases regions.len(),
{
    let before = redistributors(regions.drop_last(), mmio.drop_last());
    lemma_redistributors_count(regions.drop_last(), mmio.drop_last());
    if k < before.len() {
        lemma_redistributors_come_from_regions(regions.drop_last(), mmio.drop_last(), k)
    } else {
        regions.len() - 1
    }
}

/// There are no more redistributors than regions.
proof fn lemma_redistributors_count(regions: Seq<tree::RegionView>, mmio: Seq<Option<usize>>)
    requires
        mmio.len() == regions.len(),
    ensures
        redistributors(regions, mmio).len() <= regions.len(),
    decreases regions.len(),
{
    if regions.len() > 0 {
        lemma_redistributors_count(regions.drop_last(), mmio.drop_last());
    }
}

/// `mmio` holds what `mmio_address` may return for each region.
pub open spec fn answers<F: Fn(DtRegion) -> Option<usize>>(
    mmio_address: F,
    regions: Seq<tree::RegionView>,
    mmio: Seq<Option<usize>>,
) -> bool {
    &&& mmio.len() == regions.len()
    &&& forall|i: int|
        0 <= i < regions.len() ==> call_ensures(
            mmio_address,
            (DtRegion { address: regions[i].0, size: regions[i].1 },),
            #[trigger] mmio[i],
        )
}

/// Reads the redistributors from the device tree, if there is one.
/// `mmio_address` gives the address at which a region is reached, if it can be.
/// There is no answer if the GICv3 has no readable `reg`.
pub fn get_gicv3_redistributors_from_fdt<F: Fn(DtRegion) -> Option<usize>>(
    dtb: Option<&[u8]>,
    mmio_address: F,
) -> (gicrs: Option<Vec<(usize, usize)>>)
    requires
        dtb matches Some(data) ==> walk::readable(data@),
        forall|region: DtRegion| call_requires(mmio_address, (region,)),
    ensures
        gicrs is Some <==> regions_in_dtb(opt_bytes(dtb)) is Some,
        gicrs matches Some(list) ==> exists|mmio: Seq<Option<usize>>|
            #[trigger] answers(mmio_address, regions_in_dtb(opt_bytes(dtb))->0, mmio) && list@
                == redistributors(regions_in_dtb(opt_bytes(dtb))->0, mmio),
{
    match gicv3_redistributor_regions(dtb) {
        Some(regions) => {
            let ghost views = tree::regions_view(regions@);
            let mut mmio: Vec<Option<usize>> = Vec::new();
            let mut i: usize = 0;
            while i < regions.len()
                invariant
                    i <= regions@.len(),
                    mmio@.len() == i,
                    views == tree::regions_view(regions@),
                    forall|region: DtRegion| call_requires(mmio_address, (region,)),
                    forall|j: int|
                        0 <= j < i ==> call_ensures(
                            mmio_address,
                            (DtRegion { address: views[j].0, size: views[j].1 },),
                            #[trigger] mmio@[j],
                        ),
                decreases regions@.len() - i,
            {
                let region: DtRegion = regions[i];
                assert(region == DtRegion { address: views[i as int].0, size: views[i as int].1 });
                mmio.push(mmio_address(region));
                i = i + 1;
            }
            assert(regions_in_dtb(opt_bytes(dtb))->0 == views);
            assert(answers(mmio_address, regions_in_dtb(opt_bytes(dtb))->0, mmio@));
            let gicrs = redistributors_at(&regions, &mmio);
            assert(gicrs@ == redistributors(regions_in_dtb(opt_bytes(dtb))->0, mmio@));
            Some(gicrs)
        },
        None => None,
    }
}

/// What is to be done about the other processors of a machine with a device
/// tree.
pub fn init_from_dtb(cpu_count: u32, multi_core: bool) -> (action: DtbInit)
    ensures
        cpu_count <= 1 ==> action is SingleCpu,
        cpu_count > 1 && multi_core ==> action == DtbInit::StartAll(cpu_count as usize),
        cpu_count > 1 && !multi_core ==> action is NotBuiltIn,
{
    if cpu_count <= 1 {
        DtbInit::SingleCpu
    } else if multi_core {
        DtbInit::StartAll(cpu_count as usize)
    } else {
        DtbInit::NotBuiltIn
    }
}

/// The CPU interfaces of a table, in order.
pub open spec fn giccs_in(entries: Seq<MadtEntry>) -> Seq<MadtGicc>
    decreases entries.len(),
{
    if entries.len() == 0 {
        Seq::empty()
    } else {
        match entries.last() {
            MadtEntry::Gicc(gicc) => giccs_in(entries.drop_last()).push(gicc),
            _ => giccs_in(entries.drop_last()),
        }
    }
}

/// The first distributor of a table.
pub open spec fn first_gicd(entries: Seq<MadtEntry>) -> Option<MadtGicd>
    decreases entries.len(),
{
    if entries.len() == 0 {
        None
    } else {
        match entries[0] {
            MadtEntry::Gicd(gicd) => Some(gicd),
            _ => first_gicd(entries.drop_first()),
        }
    }
}

/// The first distributor of a table is that of its front part, or else that of
/// the rest.
proof fn lemma_first_gicd_of_prefix(entries: Seq<MadtEntry>, entry: MadtEntry)
    ensures
        first_gicd(entries.push(entry)) == (match first_gicd(entries) {
            Some(gicd) => Some(gicd),
            None => match entry {
                MadtEntry::Gicd(gicd) => Some(gicd),
                _ => None,
            },
        }),
    decreases entries.len(),
{
    let all = entries.push(entry);
    if entries.len() == 0 {
        assert(first_gicd(all.drop_first()) is None);
    } else {
        assert(all.drop_first() =~= entries.drop_first().push(entry));
        lemma_first_gicd_of_prefix(entries.drop_first(), entry);
    }
}

/// Reads the table: all CPU interfaces, the first distributor, and the number of
/// processors, which is recorded unless there is none.
pub fn init(entries: &[MadtEntry]) -> (plan: MadtInit)
    ensures
        plan.giccs@ == giccs_in(entries@),
        plan.gicd == first_gicd(entries@),
        plan.cpu_count == (if giccs_in(entries@).len() as u32 > 0 {
            Some(giccs_in(entries@).len() as u32)
        } else {
            None
        }),
        0 < giccs_in(entries@).len() <= u32::MAX ==> plan.cpu_count is Some && plan.cpu_count->0
            == giccs_in(entries@).len(),
        giccs_in(entries@).len() == 0 ==> plan.cpu_count is None,
{
    let mut giccs: Vec<MadtGicc> = Vec::new();
    let mut gicd_opt: Option<MadtGicd> = None;
    let mut i: usize = 0;
    while i < entries.len()
        invariant
            i <= entries@.len(),
            giccs@ == giccs_in(entries@.take(i as int)),
            gicd_opt == first_gicd(entries@.take(i as int)),
        decreases entries@.len() - i,
    {
        proof {
            assert(entries@.take(i + 1).drop_last() =~= entries@.take(i as int));
            assert(entries@.take(i + 1) =~= entries@.take(i as int).push(entries@[i as int]));
            lemma_first_gicd_of_prefix(entries@.take(i as int), entries@[i as int]);
        }
        match entries[i] {
            MadtEntry::Gicc(gicc) => {
                giccs.push(gicc);
            },
            MadtEntry::Gicd(gicd) => {
                if gicd_opt.is_none() {
                    gicd_opt = Some(gicd);
                }
            },
            MadtEntry::Other => {},
        }
        i = i + 1;
    }
    assert(entries@.take(entries@.len() as int) =~= entries@);
    let count: u32 = #[verifier::truncate]
    (giccs.len() as u32);
    let cpu_count: Option<u32> = if count > 0 {
        Some(count)
    } else {
        None
    };
    MadtInit { giccs, cpu_count, gicd: gicd_opt }
}

/// The version to go by: that of the hardware if it tells, else that of the
/// table.
pub open spec fn effective_version(gicd: MadtGicd, pidr2: u32) -> u8 {
    match version_of_pidr2(pidr2) {
        Some(version) => version,
        None => gicd.gic_version,
    }
}

impl MadtInit {
    /// Picks the version to go by once `GICD_PIDR2` has been read.
    pub fn gic_version(&self, pidr2: u32) -> (version: Option<u8>)
        ensures
            version == (match self.gicd {
                Some(gicd) => Some(effective_version(gicd, pidr2)),
                None => None,
            }),
    {
        match self.gicd {
            Some(gicd) => match detect_gic_version_from_hardware(pidr2) {
                Some(version) => Some(version),
                None => Some(gicd.gic_version),
            },
            None => None,
        }
    }

    /// Lists the controllers to set up for a version, with the redistributors
    /// that a GICv3 has: one for each CPU interface, or none if the version is
    /// not supported.
    pub fn controllers(&self, version: u8, gicrs: Vec<(usize, usize)>) -> (setup: GicSetup)
        ensures
            (version == 1 || version == 2) <==> setup is V2,
            version == 3 <==> setup is V3,
            setup matches GicSetup::V2 { cpu_interfaces } ==> {
                &&& cpu_interfaces@.len() == self.giccs@.len()
                &&& forall|i: int|
                    0 <= i < self.giccs@.len() ==> #[trigger] cpu_interfaces@[i]
                        == self.giccs@[i].physical_base_address
            },
            setup matches GicSetup::V3 { cpus, gicrs: shared } ==> {
                &&& cpus == self.giccs@.len()
                &&& shared == gicrs
            },
    {
        match version {
            1 | 2 => {
                let mut cpu_interfaces: Vec<u64> = Vec::new();
                let mut i: usize = 0;
                while i < self.giccs.len()
                    invariant
                        i <= self.giccs@.len(),
                        cpu_interfaces@.len() == i,
                        forall|j: int|
                            0 <= j < i ==> #[trigger] cpu_interfaces@[j]
                                == self.giccs@[j].physical_base_address,
                    decreases self.giccs@.len() - i,
                {
                    cpu_interfaces.push(self.giccs[i].physical_base_address);
                    i = i + 1;
                }
                GicSetup::V2 { cpu_interfaces }
            },
            3 => GicSetup::V3 { cpus: self.giccs.len(), gicrs },
            _ => GicSetup::Unsupported,
        }
    }

    /// Sets out to start the other processors once the controllers are set up,
    /// if that is built in. Without a distributor none is started.
    pub fn secondary_run(&self, multi_core: bool, bsp_mpidr: u64) -> (run: Option<SecondaryBoot>)
        ensures
            run is Some <==> multi_core && self.gicd is Some,
            run matches Some(boot) ==> {
                &&& boot.wf()
                &&& boot.targets@ == secondary::madt_targets(
                    self.giccs@,
                    bsp_mpidr & AFFINITY_MASK,
                )
                &&& boot.outcomes@ == Seq::<ApOutcome>::empty()
                &&& boot.counting is Tried
                &&& boot.state == secondary::state_after(0, boot.targets@.len())
            },
    {
        if multi_core && self.gicd.is_some() {
            Some(secondary::start_secondary_cpus(self.giccs.as_slice(), bsp_mpidr))
        } else {
            None
        }
    }
}

/// The version is in bits 7 to 4 of the register, and no other bit matters: one and
/// two stand for the second version, three for the third, and nothing else for any.
pub proof fn lemma_versions_of_the_hardware(pidr2: u32)
    ensures
        version_of_pidr2(pidr2) == Some(2u8) <==> pidr2 & 0xF0 == 0x10 || pidr2 & 0xF0 == 0x20,
        version_of_pidr2(pidr2) == Some(3u8) <==> pidr2 & 0xF0 == 0x30,
        version_of_pidr2(pidr2) is None <==> pidr2 & 0xF0 == 0 || pidr2 & 0xF0 > 0x30,
{
    assert(pidr2 & 0xF0 == pidr2 / 16 % 16 * 16) by (bit_vector);
}

/// What the hardware tells goes before what the table says.
pub proof fn lemma_hardware_goes_first(gicd: MadtGicd, pidr2: u32)
    ensures
        pidr2 & 0xF0 == 0x10 || pidr2 & 0xF0 == 0x20 ==> effective_version(gicd, pidr2) == 2,
        pidr2 & 0xF0 == 0x30 ==> effective_version(gicd, pidr2) == 3,
        pidr2 & 0xF0 == 0 || pidr2 & 0xF0 > 0x30 ==> effective_version(gicd, pidr2)
            == gicd.gic_version,
{
    lemma_versions_of_the_hardware(pidr2);
}

/// The version that a device tree names: the third if it has a device for that, the
/// second if it only has one for that, and none otherwise.
pub proof fn lemma_versions_of_a_device_tree(data: Seq<u8>)
    ensures
        ({
            let third = tree::fdt_compatible(data, seq!["arm,gic-v3"@]) is Some;
            let second = tree::fdt_compatible(
                data,
                seq!["arm,cortex-a15-gic"@, "arm,gic-400"@],
            ) is Some;
            &&& version_in_dtb(Some(data)) == Some(3u8) <==> third
            &&& version_in_dtb(Some(data)) == Some(2u8) <==> !third && second
            &&& version_in_dtb(Some(data)) is None <==> !third && !second
            &&& version_in_dtb(None) is None
        }),
{
}

/// The bytes of a device tree are there exactly if it is.
pub proof fn lemma_bytes_of_a_device_tree(dtb: Option<&[u8]>)
    ensures
        opt_bytes(dtb) is Some <==> dtb is Some,
        dtb matches Some(data) ==> opt_bytes(dtb) == Some(data@),
{
}

/// The number of redistributor regions is what the first property of that name says,
/// in one word or in two, and one if none says a number.
pub proof fn lemma_how_many_regions_are_announced(props: Seq<tree::PropView>, at: int)
    requires
        0 <= at < props.len(),
        props[at].0 == "#redistributor-regions"@,
        forall|i: int| 0 <= i < at ==> (#[trigger] props[i]).0 != "#redistributor-regions"@,
    ensures
        ({
            let value = props[at].1;
            let announced = announced_regions(props);
            &&& value.len() == 4 ==> announced == (((value[0] * 256 + value[1]) * 256 + value[2])
                * 256 + value[3]) as usize
            &&& value.len() == 8 ==> announced == (((((((value[0] * 256 + value[1]) * 256
                + value[2]) * 256 + value[3]) * 256 + value[4]) * 256 + value[5]) * 256 + value[6])
                * 256 + value[7]) as usize
            &&& value.len() != 4 && value.len() != 8 ==> announced == 1
        }),
{
    tree::lemma_first_property_is_found(props, "#redistributor-regions"@, at);
    tree::lemma_which_values_are_numbers(props[at].1);
}

/// One region is announced where nothing is said.
pub proof fn lemma_one_region_by_default(props: Seq<tree::PropView>)
    requires
        forall|i: int|
            0 <= i < props.len() ==> (#[trigger] props[i]).0 != "#redistributor-regions"@,
    ensures
        announced_regions(props) == 1,
{
    tree::lemma_missing_property_is_not_found(props, "#redistributor-regions"@);
}

/// The redistributor regions are those behind the first, in order, all of them or as
/// many as are announced.
pub proof fn lemma_which_regions_are_redistributors(
    regions: Seq<tree::RegionView>,
    announced: usize,
    i: int,
)
    ensures
        ({
            let part = redistributor_part(regions, announced);
            &&& part.len() <= announced
            &&& regions.len() > 0 ==> part.len() <= regions.len() - 1
            &&& part.len() == announced || part.len() == regions.len() - 1 || regions.len() == 0
            &&& regions.len() == 0 ==> part.len() == 0
            &&& 0 <= i < part.len() ==> part[i] == regions[i + 1]
        }),
{
}

/// The redistributor regions of a device tree are those of its GICv3: none without
/// one, and nothing known if that lists no regions.
pub proof fn lemma_whose_regions_are_read(data: Seq<u8>, device: tree::DeviceView)
    ensures
        regions_in_dtb(None) == Some(Seq::<tree::RegionView>::empty()),
        tree::fdt_compatible(data, seq!["arm,gic-v3"@]) is None ==> regions_in_dtb(Some(data))
            == Some(Seq::<tree::RegionView>::empty()),
        tree::fdt_compatible(data, seq!["arm,gic-v3"@]) == Some(device) ==> {
            &&& regions_in_dtb(Some(data)) is Some <==> device.1 is Some
            &&& device.1 matches Some(regions) ==> regions_in_dtb(Some(data)) == Some(
                redistributor_part(regions, announced_regions(device.0)),
            )
        },
{
}

/// One region more is one redistributor more, behind the others, exactly if it is
/// reached at an address: there it is, with its own size or 128 kibibytes.
pub proof fn lemma_one_region_more(
    regions: Seq<tree::RegionView>,
    mmio: Seq<Option<usize>>,
    region: tree::RegionView,
    reached: Option<usize>,
)
    requires
        mmio.len() == regions.len(),
    ensures
        ({
            let before = redistributors(regions, mmio);
            let after = redistributors(regions.push(region), mmio.push(reached));
            &&& reached is None ==> after == before
            &&& reached matches Some(address) ==> {
                &&& after.len() == before.len() + 1
                &&& after.drop_last() == before
                &&& after.last().0 == address
                &&& region.1 matches Some(size) ==> after.last().1 == size
                &&& region.1 is None ==> after.last().1 == 0x20000
            }
        }),
        redistributors(Seq::empty(), Seq::empty()).len() == 0,
{
    assert(regions.push(region).drop_last() =~= regions);
    assert(mmio.push(reached).drop_last() =~= mmio);
    let before = redistributors(regions, mmio);
    if let Some(address) = reached {
        let after = redistributors(regions.push(region), mmio.push(reached));
        assert(after.drop_last() =~= before);
    }
}

/// One entry more is one CPU interface more, behind the others, exactly if it is
/// one.
pub proof fn lemma_one_table_entry_more(entries: Seq<MadtEntry>, gicc: MadtGicc, entry: MadtEntry)
    ensures
        giccs_in(Seq::empty()) == Seq::<MadtGicc>::empty(),
        giccs_in(entries.push(MadtEntry::Gicc(gicc))) == giccs_in(entries).push(gicc),
        !(entry is Gicc) ==> giccs_in(entries.push(entry)) == giccs_in(entries),
{
    assert(entries.push(MadtEntry::Gicc(gicc)).drop_last() =~= entries);
    assert(entries.push(entry).drop_last() =~= entries);
}

/// The distributor is the first that the table lists, and there is none exactly if
/// it lists none.
pub proof fn lemma_distributor_is_the_first(entries: Seq<MadtEntry>, at: int)
    ensures
        0 <= at < entries.len() && entries[at] is Gicd && (forall|i: int|
            0 <= i < at ==> !(#[trigger] entries[i] is Gicd)) ==> first_gicd(entries) == Some(
            entries[at]->Gicd_0,
        ),
        first_gicd(entries) is None <==> forall|i: int|
            0 <= i < entries.len() ==> !(#[trigger] entries[i] is Gicd),
    decreases entries.len(),
{
    if entries.len() > 0 && !(entries[0] is Gicd) {
        let rest = entries.drop_first();
        assert forall|i: int| 0 <= i < rest.len() implies #[trigger] rest[i] == entries[i + 1] by {}
        lemma_distributor_is_the_first(rest, at - 1);
        if forall|i: int| 0 <= i < rest.len() ==> !(#[trigger] rest[i] is Gicd) {
            assert forall|i: int| 0 <= i < entries.len() implies !(#[trigger] entries[i] is Gicd) by {
                if i > 0 {
                    assert(rest[i - 1] == entries[i]);
                }
            }
        }
    }
}

/// There is an answer for each region, and it is one that was given for that region.
pub proof fn lemma_answers_are_for_the_regions<F: Fn(DtRegion) -> Option<usize>>(
    mmio_address: F,
    regions: Seq<tree::RegionView>,
    mmio: Seq<Option<usize>>,
    i: int,
)
    requires
        answers(mmio_address, regions, mmio),
        0 <= i < regions.len(),
    ensures
        mmio.len() == regions.len(),
        call_ensures(
            mmio_address,
            (DtRegion { address: regions[i].0, size: regions[i].1 },),
            mmio[i],
        ),
{
}

} // verus!
