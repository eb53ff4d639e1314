//! Bringing up the boot processor and handing over to the others.
//!
//! Both kinds of processor enter at the same place. [`start`] decides which one
//! it runs on, looks at the hardware description that the boot loader left, and
//! lists the steps of the boot in order.

use crate::consts::{affinity, phys_to_virt, AFFINITY_MASK, PHYS_OFFSET};
use crate::cpu_set::LogicalCpuId;
use crate::dtb::tree;
use crate::dtb::tree::{DtNode, FdtError};
use crate::dtb::walk;
use crate::smp_sync;
use crate::smp_sync::{increment_ap_entry, SmpSync};
use crate::text::{same_text, starts_with};
use vstd::prelude::*;
use vstd::utf8::*;

verus! {

/// Physical address of the serial port of a machine without a device tree.
pub const FALLBACK_UART: u64 = 0x0900_0000;

/// Bytes that are mapped behind a device tree for its later growth.
pub const DTB_SLACK: u64 = 65536;

/// What the boot loader tells the boot processor.
#[derive(Clone, Copy, Debug, PartialEq, Eq, Structural)]
pub struct KernelArgs {
    /// Physical address of the hardware description, or zero.
    pub hwdesc_base: u64,
    /// Its size in bytes.
    pub hwdesc_size: u64,
}

/// What the boot processor tells a secondary processor.
#[derive(Clone, Copy, Debug, PartialEq, Eq, Structural)]
pub struct KernelArgsAp {
    /// Number of the processor.
    pub cpu_id: u64,
    /// Physical address of the kernel page table.
    pub page_table: u64,
    /// Lowest address of its stack.
    pub stack_start: u64,
    /// Address behind its stack.
    pub stack_end: u64,
    /// Physical address of the kernel image.
    pub kernel_phys_base: u64,
}

/// Optional parts of the kernel.
#[derive(Clone, Copy, Debug, PartialEq, Eq, Structural)]
pub struct Features {
    /// Secondary processors are started.
    pub multi_core: bool,
    /// ACPI tables are used.
    pub acpi: bool,
}

/// What the hardware description turned out to be.
#[derive(Clone, Copy, Debug, PartialEq, Eq, Structural)]
pub struct HwDesc {
    /// Bytes to be read from its address, if it is to be read at all.
    pub data_len: Option<u64>,
    /// It is a device tree.
    pub is_dtb: bool,
}

/// A step of the boot.
#[derive(Clone, Copy, Debug, PartialEq, Eq, Structural)]
pub enum BootStep {
    /// Set up the serial port that the device tree names.
    SerialFromDtb,
    /// Set up the serial port at this address.
    SerialAt(u64),
    /// Set up the graphical console.
    GraphicalDebug,
    /// Print the arguments of the boot loader.
    PrintArgs,
    /// Reserve a range of physical addresses for devices.
    RegisterDeviceRegion {
        /// First address.
        base: u64,
        /// Length in bytes.
        size: u64,
    },
    /// Set up the physical memory manager.
    InitMemory,
    /// Set up paging.
    InitPaging,
    /// Set up the block of a processor.
    InitPercpu(LogicalCpuId),
    /// Clear the flags by which processors signal that they are ready.
    ResetReadyFlags,
    /// Set up the kernel heap.
    InitHeap,
    /// Start to keep the log in memory.
    InitLog,
    /// Allocate the block that the processors share.
    InitSmpSync,
    /// Record the number of processors.
    StoreCpuCount(u32),
    /// Publish the device tree to the rest of the kernel.
    PublishDtb {
        /// Its address.
        address: u64,
        /// Its length in bytes.
        len: u64,
    },
    /// Record that there is no device tree.
    PublishNoDtb,
    /// Set up the devices of the device tree.
    InitDeviceTree,
    /// Start the other processors.
    StartSecondaryCpus,
    /// Set up the devices of the ACPI tables.
    InitAcpi,
    /// Set the clock from the real-time clock at its customary address.
    InitRtcFallback,
    /// Let the other processors go on.
    SignalBspReady,
    /// Enter the kernel proper.
    EnterKmain,
}

/// What a processor does when it enters the kernel.
#[derive(Clone, Debug)]
pub enum StartPlan {
    /// It is a secondary processor.
    Secondary,
    /// It is the boot processor, with these steps to do.
    Primary(Vec<BootStep>),
}

/// The name of a node that stands for a processor.
pub open spec fn is_cpu_name(name: Seq<char>) -> bool {
    "cpu@"@.is_prefix_of(name) || name == "cpu"@
}

/// The node is not disabled: it has no readable `status`, or that is `okay` or
/// `ok`.
pub open spec fn is_enabled(props: Seq<tree::PropView>) -> bool {
    match tree::find_value(props, "status"@) {
        Some(value) => match tree::text_of(value) {
            Some(text) => text == "okay"@ || text == "ok"@,
            None => true,
        },
        None => true,
    }
}

/// The node counts as a processor: it is named like one, and it is enabled or
/// has no `reg`.
pub open spec fn counts_as_cpu(node: tree::NodeView) -> bool {
    &&& is_cpu_name(node.0)
    &&& tree::find_value(node.1, "reg"@) is None || is_enabled(node.1)
}

/// Number of nodes that count as processors.
pub open spec fn cpu_nodes(nodes: Seq<tree::NodeView>) -> nat {
    nodes.filter(|node: tree::NodeView| counts_as_cpu(node)).len()
}

/// Number of processors of a machine with these nodes under `/cpus`: one at
/// least.
pub open spec fn cpu_total(children: Option<Seq<tree::NodeView>>) -> nat {
    match children {
        Some(nodes) => if cpu_nodes(nodes) == 0 {
            1
        } else {
            cpu_nodes(nodes)
        },
        None => 1,
    }
}

/// A machine has a processor, whatever the device tree lists, and no more than it
/// lists nodes otherwise.
pub proof fn lemma_cpu_total_bounds(children: Option<Seq<tree::NodeView>>)
    ensures
        1 <= cpu_total(children),
        children matches Some(nodes) ==> cpu_total(children) <= nodes.len() || nodes.len() == 0,
{
    if let Some(nodes) = children {
        nodes.lemma_filter_len(|node: tree::NodeView| counts_as_cpu(node));
    }
}

/// Tests whether a node is named like a processor.
fn named_cpu(name: &str) -> (yes: bool)
    ensures
        yes == is_cpu_name(name@),
{
    starts_with(name, "cpu@") || same_text(name, "cpu")
}

/// Tests whether a node is enabled.
fn enabled(props: &Vec<tree::DtProp>) -> (yes: bool)
    ensures
        yes == is_enabled(tree::props_view(props@)),
{
    match tree::property(props, "status") {
        Some(value) => match tree::prop_text(value.as_slice()) {
            Some(text) => same_text(text.as_str(), "okay") || same_text(text.as_str(), "ok"),
            None => true,
        },
        None => true,
    }
}

/// Counts the processors among the nodes under `/cpus`.
pub fn count_cpus(children: &Option<Vec<DtNode>>) -> (count: u32)
    requires
        children matches Some(nodes) ==> nodes@.len() <= u32::MAX,
    ensures
        count == cpu_total(tree::opt_nodes_view(*children)),
        children matches Some(nodes) ==> nodes@.len() > 0 && (forall|i: int|
            0 <= i < nodes@.len() ==> {
                let name = (#[trigger] nodes@[i]).name@;
                &&& name.len() >= 3
                &&& name[0] == 'c'
                &&& name[1] == 'p'
                &&& name[2] == 'u'
                &&& name.len() == 3 || name[3] == '@'
            }) && (forall|i: int, k: int|
            0 <= i < nodes@.len() && 0 <= k < nodes@[i].props@.len() ==> (
            #[trigger] nodes@[i].props@[k]).name@ != "status"@) ==> count == nodes@.len(),
{
    let mut count: u32 = 0;
    if let Some(nodes) = children {
        let ghost views = tree::nodes_view(nodes@);
        let ghost pred = |node: tree::NodeView| counts_as_cpu(node);
        let mut i: usize = 0;
        proof {
            reveal(Seq::filter);
        }
        while i < nodes.len()
            invariant
                i <= nodes@.len() <= u32::MAX,
                views == tree::nodes_view(nodes@),
                pred == (|node: tree::NodeView| counts_as_cpu(node)),
                count == views.take(i as int).filter(pred).len(),
                count <= i,
            decreases nodes@.len() - i,
        {
            proof {
                reveal(Seq::filter);
                assert(views.take(i + 1).drop_last() =~= views.take(i as int));
                assert(views.take(i + 1).last() == nodes@[i as int]@);
            }
            let node: &DtNode = &nodes[i];
            if named_cpu(node.name.as_str()) {
                if tree::property(&node.props, "reg").is_none() || enabled(&node.props) {
                    count = count + 1;
                }
            }
            i = i + 1;
        }
        assert(views.take(nodes@.len() as int) =~= views);
        proof {
            let named = forall|i: int|
                0 <= i < nodes@.len() ==> {
                    let name = (#[trigger] nodes@[i]).name@;
                    &&& name.len() >= 3
                    &&& name[0] == 'c'
                    &&& name[1] == 'p'
                    &&& name[2] == 'u'
                    &&& name.len() == 3 || name[3] == '@'
                };
            let plain = forall|i: int, k: int|
                0 <= i < nodes@.len() && 0 <= k < nodes@[i].props@.len() ==> (
                #[trigger] nodes@[i].props@[k]).name@ != "status"@;
            if named && plain {
                assert forall|i: int, k: int|
                    0 <= i < views.len() && 0 <= k < views[i].1.len() implies (
                #[trigger] views[i].1[k]).0 != "status"@ by {
                    assert(nodes@[i].props@[k].name@ != "status"@);
                }
                lemma_plain_nodes_all_count(views);
            }
        }
    }
    if count == 0 {
        count = 1;
    }
    count
}

/// Counts the processors that the device tree lists.
pub fn enumerate_cpus_from_dtb(dtb: &[u8]) -> (count: u32)
    requires
        walk::walkable(dtb@, "/cpus"@),
    ensures
        count == cpu_total(tree::fdt_children(dtb@, "/cpus"@)),
{
    let children = tree::children_at(dtb, "/cpus");
    count_cpus(&children)
}

/// What a hardware description of `size` bytes at `base` is, going by its first
/// eight bytes.
pub open spec fn hwdesc_of(base: u64, size: u64, header: Seq<u8>) -> HwDesc {
    if base == 0 || size < 8 {
        HwDesc { data_len: None, is_dtb: false }
    } else if walk::be32_at(header, 0) == walk::FDT_MAGIC {
        HwDesc {
            data_len: Some(
                if walk::be32_at(header, 4) + DTB_SLACK >= size {
                    (walk::be32_at(header, 4) + DTB_SLACK) as u64
                } else {
                    size
                },
            ),
            is_dtb: true,
        }
    } else if header.take(8) == encode_utf8("RSD PTR "@) {
        HwDesc { data_len: None, is_dtb: false }
    } else {
        HwDesc { data_len: Some(size), is_dtb: false }
    }
}

/// Tells a device tree from an ACPI pointer by the first eight bytes.
pub fn classify_hwdesc(args: &KernelArgs, header: &[u8]) -> (desc: HwDesc)
    requires
        args.hwdesc_base != 0 && args.hwdesc_size >= 8 ==> header@.len() >= 8,
    ensures
        desc == hwdesc_of(args.hwdesc_base, args.hwdesc_size, header@),
{
    if args.hwdesc_base == 0 || args.hwdesc_size < 8 {
        return HwDesc { data_len: None, is_dtb: false };
    }
    if walk::read_be32(header, 0) == walk::FDT_MAGIC {
        let wanted: u64 = walk::read_be32(header, 4) as u64 + DTB_SLACK;
        let len: u64 = if wanted >= args.hwdesc_size {
            wanted
        } else {
            args.hwdesc_size
        };
        return HwDesc { data_len: Some(len), is_dtb: true };
    }
    assert(header@.take(8) =~= header@.subrange(0, 8));
    if walk::range_is(header, 0, 8, "RSD PTR ") {
        HwDesc { data_len: None, is_dtb: false }
    } else {
        HwDesc { data_len: Some(args.hwdesc_size), is_dtb: false }
    }
}

/// What comes of reading the hardware description as a device tree.
pub open spec fn dtb_verdict(desc: HwDesc, data: Seq<u8>) -> Result<(), FdtError> {
    if desc.is_dtb {
        tree::header_verdict(data)
    } else {
        Err(FdtError::BadPtr)
    }
}

/// Reads the hardware description as a device tree, if it is one.
pub fn parse_hwdesc(desc: &HwDesc, data: &[u8]) -> (verdict: Result<(), FdtError>)
    ensures
        verdict == dtb_verdict(*desc, data@),
{
    if desc.is_dtb {
        tree::open_tree(data)
    } else {
        Err(FdtError::BadPtr)
    }
}

/// What is recognised as a device tree by its first bytes is accepted as one,
/// once as many bytes are read as [`classify_hwdesc`] asks for.
pub proof fn lemma_recognised_dtb_is_accepted(base: u64, size: u64, data: Seq<u8>)
    requires
        hwdesc_of(base, size, data.take(8)).is_dtb,
        hwdesc_of(base, size, data.take(8)).data_len == Some(data.len() as u64),
        data.len() <= u64::MAX,
    ensures
        dtb_verdict(hwdesc_of(base, size, data.take(8)), data) == Ok::<(), FdtError>(()),
{
    let head = data.take(8);
    assert(data.len() >= 8);
    assert(head[0] == data[0] && head[1] == data[1] && head[2] == data[2] && head[3] == data[3]);
    assert(head[4] == data[4] && head[5] == data[5] && head[6] == data[6] && head[7] == data[7]);
}

/// The steps up to the point at which the devices are set up.
pub open spec fn early_steps(with_dtb: bool) -> Seq<BootStep> {
    seq![
        if with_dtb {
            BootStep::SerialFromDtb
        } else {
            BootStep::SerialAt((PHYS_OFFSET + FALLBACK_UART) as u64)
        },
        BootStep::GraphicalDebug,
        BootStep::PrintArgs,
        BootStep::RegisterDeviceRegion { base: 0x0800_0000, size: 0x0800_0000 },
        BootStep::RegisterDeviceRegion { base: 0x1000_0000, size: 0x3000_0000 },
        BootStep::RegisterDeviceRegion { base: 0x40_1000_0000, size: 0x1000_0000 },
        BootStep::InitMemory,
        BootStep::InitPaging,
        BootStep::InitPercpu((LogicalCpuId { id: 0 })),
        BootStep::ResetReadyFlags,
        BootStep::InitHeap,
        BootStep::InitLog,
        BootStep::InitSmpSync,
    ]
}

/// The steps that set up the devices of a device tree mapped at `address`.
pub open spec fn dtb_steps(dtb: Seq<u8>, address: u64, features: Features) -> Seq<BootStep> {
    let steps = seq![
        BootStep::StoreCpuCount(cpu_total(tree::fdt_children(dtb, "/cpus"@)) as u32),
        BootStep::PublishDtb { address, len: dtb.len() as u64 },
        BootStep::InitDeviceTree,
    ];
    if features.multi_core {
        steps.push(BootStep::StartSecondaryCpus)
    } else {
        steps
    }
}

/// The steps that set up the devices of a machine without a device tree.
pub open spec fn fallback_steps(features: Features) -> Seq<BootStep> {
    if features.acpi {
        seq![BootStep::PublishNoDtb, BootStep::InitAcpi, BootStep::InitRtcFallback]
    } else {
        seq![BootStep::PublishNoDtb, BootStep::InitRtcFallback]
    }
}

/// All steps of the boot processor; `dtb` is the device tree, if there is one,
/// and `address` the address at which it is mapped.
pub open spec fn boot_steps(dtb: Option<Seq<u8>>, address: u64, features: Features) -> Seq<
    BootStep,
> {
    early_steps(dtb is Some) + (match dtb {
        Some(data) => dtb_steps(data, address, features),
        None => fallback_steps(features),
    }) + seq![BootStep::SignalBspReady, BootStep::EnterKmain]
}

/// The device tree among the hardware description and its data, if there is
/// one.
pub open spec fn accepted_dtb(args: KernelArgs, header: Seq<u8>, data: Seq<u8>) -> Option<Seq<u8>> {
    if dtb_verdict(hwdesc_of(args.hwdesc_base, args.hwdesc_size, header), data) is Ok {
        Some(data)
    } else {
        None
    }
}

/// Tells the secondary processors from the boot processor, which has the affinity
/// zero.
pub fn is_secondary(mpidr: u64) -> (yes: bool)
    ensures
        yes == (mpidr & AFFINITY_MASK != 0),
{
    affinity(mpidr) != 0
}

/// Lists what a processor does when it enters the kernel.
///
/// `header` holds the first eight bytes of the hardware description, and `data`
/// as many as [`classify_hwdesc`] asks for.
pub fn start(mpidr: u64, args: &KernelArgs, header: &[u8], data: &[u8], features: &Features) -> (plan:
    StartPlan)
    requires
        mpidr & AFFINITY_MASK == 0 ==> {
            &&& args.hwdesc_base + PHYS_OFFSET <= u64::MAX
            &&& args.hwdesc_base != 0 && args.hwdesc_size >= 8 ==> header@.len() >= 8
            &&& accepted_dtb(*args, header@, data@) is Some ==> walk::walkable(data@, "/cpus"@)
        },
    ensures
        plan is Secondary <==> mpidr & AFFINITY_MASK != 0,
        plan matches StartPlan::Primary(steps) ==> steps@ == boot_steps(
            accepted_dtb(*args, header@, data@),
            (args.hwdesc_base + PHYS_OFFSET) as u64,
            *features,
        ),
{
    if is_secondary(mpidr) {
        return StartPlan::Secondary;
    }
    let desc = classify_hwdesc(args, header);
    let verdict = parse_hwdesc(&desc, data);
    let with_dtb: bool = verdict.is_ok();
    let mut steps: Vec<BootStep> = Vec::new();
    if with_dtb {
        steps.push(BootStep::SerialFromDtb);
    } else {
        steps.push(BootStep::SerialAt(phys_to_virt(FALLBACK_UART)));
    }
    steps.push(BootStep::GraphicalDebug);
    steps.push(BootStep::PrintArgs);
    steps.push(BootStep::RegisterDeviceRegion { base: 0x0800_0000, size: 0x0800_0000 });
    steps.push(BootStep::RegisterDeviceRegion { base: 0x1000_0000, size: 0x3000_0000 });
    steps.push(BootStep::RegisterDeviceRegion { base: 0x40_1000_0000, size: 0x1000_0000 });
    steps.push(BootStep::InitMemory);
    steps.push(BootStep::InitPaging);
    steps.push(BootStep::InitPercpu(LogicalCpuId::new(0)));
    steps.push(BootStep::ResetReadyFlags);
    steps.push(BootStep::InitHeap);
    steps.push(BootStep::InitLog);
    steps.push(BootStep::InitSmpSync);
    assert(steps@ =~= early_steps(with_dtb));
    let ghost early = steps@;
    if with_dtb {
        let count: u32 = enumerate_cpus_from_dtb(data);
        steps.push(BootStep::StoreCpuCount(count));
        steps.push(
            BootStep::PublishDtb { address: phys_to_virt(args.hwdesc_base), len: data.len() as u64 },
        );
        steps.push(BootStep::InitDeviceTree);
        if features.multi_core {
            steps.push(BootStep::StartSecondaryCpus);
        }
        assert(steps@ =~= early + dtb_steps(
            data@,
            (args.hwdesc_base + PHYS_OFFSET) as u64,
            *features,
        ));
    } else {
        steps.push(BootStep::PublishNoDtb);
        if features.acpi {
            steps.push(BootStep::InitAcpi);
        }
        steps.push(BootStep::InitRtcFallback);
        assert(steps@ =~= early + fallback_steps(*features));
    }
    steps.push(BootStep::SignalBspReady);
    steps.push(BootStep::EnterKmain);
    assert(steps@ =~= boot_steps(
        accepted_dtb(*args, header@, data@),
        (args.hwdesc_base + PHYS_OFFSET) as u64,
        *features,
    ));
    StartPlan::Primary(steps)
}

/// Every step that satisfies `first` comes before every one that satisfies
/// `second`.
pub open spec fn precedes(
    steps: Seq<BootStep>,
    first: spec_fn(BootStep) -> bool,
    second: spec_fn(BootStep) -> bool,
) -> bool {
    forall|i: int, j: int|
        0 <= i < steps.len() && 0 <= j < steps.len() && first(#[trigger] steps[i]) && second(
            #[trigger] steps[j],
        ) ==> i < j
}

/// The order that the parts of the kernel rely on: a serial port is there before
/// anything is printed, the shared block is allocated once there is a heap, the
/// processors are counted before the device tree is published, secondary
/// processors are started once the interrupt controller is set up, and they are
/// let go when everything else is done.
pub proof fn lemma_boot_order(dtb: Option<Seq<u8>>, address: u64, features: Features)
    ensures
        ({
            let steps = boot_steps(dtb, address, features);
            &&& steps[0] is SerialFromDtb || steps[0] is SerialAt
            &&& precedes(steps, |s: BootStep| s is InitHeap, |s: BootStep| s is InitSmpSync)
            &&& precedes(steps, |s: BootStep| s is StoreCpuCount, |s: BootStep| s is PublishDtb)
            &&& precedes(
                steps,
                |s: BootStep| s is InitDeviceTree,
                |s: BootStep| s is StartSecondaryCpus,
            )
            &&& precedes(
                steps,
                |s: BootStep| !(s is SignalBspReady || s is EnterKmain),
                |s: BootStep| s is SignalBspReady,
            )
            &&& steps.last() is EnterKmain
        }),
{
    let steps = boot_steps(dtb, address, features);
    let n = steps.len() as int;
    let middle = match dtb {
        Some(data) => dtb_steps(data, address, features),
        None => fallback_steps(features),
    };
    let early = early_steps(dtb is Some);
    assert(n == 13 + middle.len() + 2);
    assert forall|i: int| 0 <= i < n implies steps[i] == (if i < 13 {
        early[i]
    } else if i < n - 2 {
        middle[i - 13]
    } else if i == n - 2 {
        BootStep::SignalBspReady
    } else {
        BootStep::EnterKmain
    }) by {}
}

/// A step of a secondary processor on its way in.
#[derive(Clone, Copy, Debug, PartialEq, Eq, Structural)]
pub enum ApStep {
    /// Write a character to the serial port.
    ShowMarker(u32),
    /// Set up paging.
    InitPaging,
    /// Set up the block of the processor.
    InitPercpu(LogicalCpuId),
    /// Tell the boot processor that it is ready.
    SignalApReady,
    /// Wait until the boot processor lets it go on.
    WaitForBsp,
    /// Enter the kernel proper.
    EnterKmainAp(LogicalCpuId),
}

/// The character that shows how many processors entered before: a decimal digit,
/// or `X` where one digit is not enough.
pub open spec fn entry_marker(entered_before: u32) -> u32 {
    if entered_before < 10 {
        ('0' as u32 + entered_before) as u32
    } else {
        'X' as u32
    }
}

/// The steps of a secondary processor.
pub open spec fn ap_steps(cpu_id: LogicalCpuId, entered_before: u32) -> Seq<ApStep> {
    seq![
        ApStep::ShowMarker(entry_marker(entered_before)),
        ApStep::InitPaging,
        ApStep::InitPercpu(cpu_id),
        ApStep::SignalApReady,
        ApStep::WaitForBsp,
        ApStep::EnterKmainAp(cpu_id),
    ]
}

/// The address at which a secondary processor finds its arguments, given their
/// physical address.
pub fn ap_args_address(args_phys: u64) -> (address: u64)
    requires
        args_phys + PHYS_OFFSET <= u64::MAX,
    ensures
        address == args_phys + PHYS_OFFSET,
{
    phys_to_virt(args_phys)
}

/// Counts a secondary processor and lists what it does with its arguments.
pub fn start_ap_shared(args: &KernelArgsAp, sync: &mut SmpSync) -> (steps: Vec<ApStep>)
    ensures
        *final(sync) == smp_sync::entered(*old(sync)),
        steps@ == ap_steps(
            (LogicalCpuId { id: args.cpu_id as u32 }),
            smp_sync::entries_of(*old(sync)),
        ),
{
    let before: u32 = increment_ap_entry(sync);
    let marker: u32 = if before < 10 {
        0x30 + before
    } else {
        0x58
    };
    let id: u32 = #[verifier::truncate]
    (args.cpu_id as u32);
    let cpu_id = LogicalCpuId::new(id);
    let mut steps: Vec<ApStep> = Vec::new();
    steps.push(ApStep::ShowMarker(marker));
    steps.push(ApStep::InitPaging);
    steps.push(ApStep::InitPercpu(cpu_id));
    steps.push(ApStep::SignalApReady);
    steps.push(ApStep::WaitForBsp);
    steps.push(ApStep::EnterKmainAp(cpu_id));
    assert(steps@ =~= ap_steps((LogicalCpuId { id: args.cpu_id as u32 }), before));
    steps
}

/// The nodes that are named like a processor: `cpu`, or `cpu@` and anything behind
/// it.
pub proof fn lemma_which_names_are_processors(name: Seq<char>)
    ensures
        is_cpu_name(name) <==> {
            &&& name.len() >= 3
            &&& name[0] == 'c'
            &&& name[1] == 'p'
            &&& name[2] == 'u'
            &&& name.len() == 3 || name[3] == '@'
        },
{
    reveal_strlit("cpu@");
    reveal_strlit("cpu");
    if "cpu@"@.is_prefix_of(name) {
        let head = name.subrange(0, 4);
        assert(head == "cpu@"@);
        assert(name[0] == head[0] && name[1] == head[1] && name[2] == head[2] && name[3] == head[3]);
    }
    if name.len() == 3 && name[0] == 'c' && name[1] == 'p' && name[2] == 'u' {
        assert(name =~= "cpu"@);
    }
    if name.len() > 3 && name[0] == 'c' && name[1] == 'p' && name[2] == 'u' && name[3] == '@' {
        assert("cpu@"@ =~= name.subrange(0, 4));
    }
}

/// A node that is named like a processor counts if it has no status, whatever its
/// `reg` and its other properties hold, and if it has no `reg`, whatever its status.
/// No other name counts.
pub proof fn lemma_nodes_count_by_default(node: tree::NodeView)
    ensures
        is_cpu_name(node.0) && (forall|i: int|
            0 <= i < node.1.len() ==> (#[trigger] node.1[i]).0 != "status"@) ==> counts_as_cpu(node),
        is_cpu_name(node.0) && (forall|i: int|
            0 <= i < node.1.len() ==> (#[trigger] node.1[i]).0 != "reg"@) ==> counts_as_cpu(node),
        !is_cpu_name(node.0) ==> !counts_as_cpu(node),
{
    tree::lemma_missing_property_is_not_found(node.1, "status"@);
    tree::lemma_missing_property_is_not_found(node.1, "reg"@);
}

/// The status decides on a node with a `reg` that is named like a processor: the
/// node counts exactly if the first status says `okay` or `ok`, with any number of
/// zeros behind it.
pub proof fn lemma_status_decides(
    node: tree::NodeView,
    reg: int,
    at: int,
    text: Seq<char>,
    zeros: nat,
)
    requires
        is_cpu_name(node.0),
        0 <= reg < node.1.len(),
        node.1[reg].0 == "reg"@,
        0 <= at < node.1.len(),
        node.1[at].0 == "status"@,
        forall|i: int| 0 <= i < at ==> (#[trigger] node.1[i]).0 != "status"@,
        text.len() > 0 ==> text.last() != '\0',
        node.1[at].1 == encode_utf8(text + Seq::new(zeros, |i: int| '\0')),
    ensures
        counts_as_cpu(node) <==> text == seq!['o', 'k', 'a', 'y'] || text == seq!['o', 'k'],
{
    tree::lemma_first_property_is_found(node.1, "status"@, at);
    tree::lemma_missing_property_is_not_found(node.1, "reg"@);
    tree::lemma_zeros_do_not_belong_to_text(text, zeros);
    reveal_strlit("okay");
    reveal_strlit("ok");
    assert("okay"@ =~= seq!['o', 'k', 'a', 'y']);
    assert("ok"@ =~= seq!['o', 'k']);
}

/// A status that is no text disables nothing.
pub proof fn lemma_unreadable_status_counts(node: tree::NodeView, at: int)
    requires
        is_cpu_name(node.0),
        0 <= at < node.1.len(),
        node.1[at].0 == "status"@,
        forall|i: int| 0 <= i < at ==> (#[trigger] node.1[i]).0 != "status"@,
        !valid_utf8(node.1[at].1),
    ensures
        counts_as_cpu(node),
{
    tree::lemma_first_property_is_found(node.1, "status"@, at);
}

/// Two nodes with the same name and the same status, of which both or neither have
/// a `reg`, both count or both do not: no value is read but that of the status.
pub proof fn lemma_name_reg_and_status_decide(one: tree::NodeView, other: tree::NodeView)
    requires
        one.0 == other.0,
        (forall|i: int| 0 <= i < one.1.len() ==> (#[trigger] one.1[i]).0 != "reg"@) <==> (forall|
            i: int,
        |
            0 <= i < other.1.len() ==> (#[trigger] other.1[i]).0 != "reg"@),
        tree::find_value(one.1, "status"@) == tree::find_value(other.1, "status"@),
    ensures
        counts_as_cpu(one) == counts_as_cpu(other),
{
    tree::lemma_missing_property_is_not_found(one.1, "reg"@);
    tree::lemma_missing_property_is_not_found(other.1, "reg"@);
}

/// One node more is one processor more exactly if it counts, and no nodes are no
/// processors.
pub proof fn lemma_one_node_more(nodes: Seq<tree::NodeView>, node: tree::NodeView)
    ensures
        cpu_nodes(Seq::empty()) == 0,
        counts_as_cpu(node) ==> cpu_nodes(nodes.push(node)) == cpu_nodes(nodes) + 1,
        !counts_as_cpu(node) ==> cpu_nodes(nodes.push(node)) == cpu_nodes(nodes),
{
    reveal(Seq::filter);
    assert(nodes.push(node).drop_last() =~= nodes);
}

/// If all nodes are named like processors and none has a status, there are as many
/// processors as nodes.
pub proof fn lemma_plain_nodes_all_count(nodes: Seq<tree::NodeView>)
    requires
        forall|i: int|
            0 <= i < nodes.len() ==> {
                let name = (#[trigger] nodes[i]).0;
                &&& name.len() >= 3
                &&& name[0] == 'c'
                &&& name[1] == 'p'
                &&& name[2] == 'u'
                &&& name.len() == 3 || name[3] == '@'
            },
        forall|i: int, k: int|
            0 <= i < nodes.len() && 0 <= k < nodes[i].1.len() ==> (#[trigger] nodes[i].1[k]).0
                != "status"@,
    ensures
        cpu_nodes(nodes) == nodes.len(),
        nodes.len() > 0 ==> cpu_total(Some(nodes)) == nodes.len(),
    decreases nodes.len(),
{
    if nodes.len() == 0 {
        assert(nodes =~= Seq::empty());
        lemma_one_node_more(nodes, (Seq::empty(), Seq::empty()));
    } else {
        let before = nodes.drop_last();
        let last = nodes.len() - 1;
        let node = nodes[last];
        assert forall|i: int, k: int|
            0 <= i < before.len() && 0 <= k < before[i].1.len() implies (
        #[trigger] before[i].1[k]).0 != "status"@ by {
            assert(nodes[i].1[k].0 != "status"@);
        }
        lemma_plain_nodes_all_count(before);
        lemma_which_names_are_processors(node.0);
        assert forall|k: int| 0 <= k < node.1.len() implies (#[trigger] node.1[k]).0
            != "status"@ by {
            assert(nodes[last].1[k].0 != "status"@);
        }
        lemma_nodes_count_by_default(node);
        lemma_one_node_more(before, node);
        assert(before.push(node) =~= nodes);
    }
}

/// The machine has as many processors as nodes count, but one if none does or there
/// are no nodes at all.
pub proof fn lemma_how_many_processors(nodes: Seq<tree::NodeView>)
    ensures
        cpu_nodes(nodes) >= 1 ==> cpu_total(Some(nodes)) == cpu_nodes(nodes),
        cpu_nodes(nodes) == 0 ==> cpu_total(Some(nodes)) == 1,
        cpu_total(None) == 1,
{
}

/// What the hardware description is: nothing without an address or eight bytes; a
/// device tree if it starts with the bytes `d0 0d fe ed`, to be read to the length
/// that the next word says and sixty-four kibibytes on, or to the given size if that
/// is more; nothing to be read if it starts with `RSD PTR` and a space; and to be
/// read as it is otherwise.
pub proof fn lemma_what_the_description_is(base: u64, size: u64, header: Seq<u8>)
    requires
        base != 0 && size >= 8 ==> header.len() >= 8,
    ensures
        ({
            let desc = hwdesc_of(base, size, header);
            let there = base != 0 && size >= 8;
            let magic = header[0] == 0xd0 && header[1] == 0x0d && header[2] == 0xfe && header[3]
                == 0xed;
            let said = ((header[4] * 256 + header[5]) * 256 + header[6]) * 256 + header[7];
            let pointer = header[0] == 0x52 && header[1] == 0x53 && header[2] == 0x44 && header[3]
                == 0x20 && header[4] == 0x50 && header[5] == 0x54 && header[6] == 0x52 && header[7]
                == 0x20;
            &&& desc.is_dtb <==> there && magic
            &&& there && magic ==> {
                &&& desc.data_len is Some
                &&& desc.data_len->0 >= said + 65536
                &&& desc.data_len->0 >= size
                &&& desc.data_len->0 == said + 65536 || desc.data_len->0 == size
            }
            &&& there && !magic && !pointer ==> desc.data_len == Some(size)
            &&& !there || pointer ==> desc.data_len is None
        }),
{
    reveal_strlit("RSD PTR ");
    let text = "RSD PTR "@;
    assert(is_ascii_chars(text));
    is_ascii_chars_encode_utf8(text);
    let bytes = encode_utf8(text);
    assert(text[0] as u8 == 0x52 && text[1] as u8 == 0x53 && text[2] as u8 == 0x44 && text[3] as u8
        == 0x20);
    assert(text[4] as u8 == 0x50 && text[5] as u8 == 0x54 && text[6] as u8 == 0x52 && text[7] as u8
        == 0x20);
    if header.len() >= 8 {
        let head = header.take(8);
        if head[0] == 0x52 && head[1] == 0x53 && head[2] == 0x44 && head[3] == 0x20 && head[4] == 0x50
            && head[5] == 0x54 && head[6] == 0x52 && head[7] == 0x20 {
            assert(head =~= bytes);
        }
        if head == bytes {
            assert(forall|i: int| 0 <= i < 8 ==> #[trigger] head[i] == bytes[i]);
            assert(header[0] == bytes[0] && header[1] == bytes[1] && header[2] == bytes[2] && header[3]
                == bytes[3]);
            assert(header[4] == bytes[4] && header[5] == bytes[5] && header[6] == bytes[6] && header[7]
                == bytes[7]);
        }
    }
}

/// A description that is no device tree is refused as missing; one that is, is
/// judged by its own header, and then it is the data that was read.
pub proof fn lemma_which_description_is_a_tree(args: KernelArgs, header: Seq<u8>, data: Seq<u8>)
    requires
        args.hwdesc_base != 0 && args.hwdesc_size >= 8 ==> header.len() >= 8,
    ensures
        ({
            let desc = hwdesc_of(args.hwdesc_base, args.hwdesc_size, header);
            let accepted = accepted_dtb(args, header, data);
            &&& !desc.is_dtb ==> dtb_verdict(desc, data) == Err::<(), FdtError>(FdtError::BadPtr)
            &&& desc.is_dtb ==> dtb_verdict(desc, data) == tree::header_verdict(data)
            &&& accepted is Some ==> accepted == Some(data)
            &&& accepted is Some <==> {
                &&& args.hwdesc_base != 0 && args.hwdesc_size >= 8
                &&& header[0] == 0xd0 && header[1] == 0x0d && header[2] == 0xfe && header[3] == 0xed
                &&& data.len() >= 40
                &&& data[0] == 0xd0 && data[1] == 0x0d && data[2] == 0xfe && data[3] == 0xed
                &&& data.len() >= ((data[4] * 256 + data[5]) * 256 + data[6]) * 256 + data[7]
            }
        }),
{
    lemma_what_the_description_is(args.hwdesc_base, args.hwdesc_size, header);
    tree::lemma_which_blobs_are_accepted(data);
}

/// The boot comes down to fixed lists: thirteen steps that all machines have, of
/// which only the first depends on the device tree; those of the device tree, or of
/// a machine without one; and two at the end.
pub proof fn lemma_which_steps_there_are(dtb: Option<Seq<u8>>, address: u64, features: Features)
    ensures
        ({
            let steps = boot_steps(dtb, address, features);
            let n = steps.len() as int;
            &&& dtb is Some ==> steps[0] == BootStep::SerialFromDtb
            &&& dtb is None ==> steps[0] == BootStep::SerialAt(0xFFFF_8000_0900_0000)
            &&& steps[1] == BootStep::GraphicalDebug
            &&& steps[2] == BootStep::PrintArgs
            &&& steps[3] == BootStep::RegisterDeviceRegion { base: 0x0800_0000, size: 0x0800_0000 }
            &&& steps[4] == BootStep::RegisterDeviceRegion { base: 0x1000_0000, size: 0x3000_0000 }
            &&& steps[5] == BootStep::RegisterDeviceRegion {
                base: 0x40_1000_0000,
                size: 0x1000_0000,
            }
            &&& steps[6] == BootStep::InitMemory
            &&& steps[7] == BootStep::InitPaging
            &&& steps[8] == BootStep::InitPercpu(LogicalCpuId { id: 0 })
            &&& steps[9] == BootStep::ResetReadyFlags
            &&& steps[10] == BootStep::InitHeap
            &&& steps[11] == BootStep::InitLog
            &&& steps[12] == BootStep::InitSmpSync
            &&& dtb matches Some(data) ==> {
                &&& n == (if features.multi_core { 19int } else { 18 })
                &&& steps[13] == BootStep::StoreCpuCount(
                    cpu_total(tree::fdt_children(data, "/cpus"@)) as u32,
                )
                &&& steps[14] == BootStep::PublishDtb { address, len: data.len() as u64 }
                &&& steps[15] == BootStep::InitDeviceTree
                &&& features.multi_core ==> steps[16] == BootStep::StartSecondaryCpus
            }
            &&& dtb is None ==> {
                &&& n == (if features.acpi { 18int } else { 17 })
                &&& steps[13] == BootStep::PublishNoDtb
                &&& features.acpi ==> steps[14] == BootStep::InitAcpi
                &&& steps[n - 3] == BootStep::InitRtcFallback
            }
            &&& steps[n - 2] == BootStep::SignalBspReady
            &&& steps[n - 1] == BootStep::EnterKmain
        }),
{
}

/// A secondary processor shows a digit for up to nine that entered before it and an
/// `X` for more, comes up under its own number, reports, and enters the kernel when
/// it is let go.
pub proof fn lemma_what_a_secondary_processor_does(cpu_id: LogicalCpuId, entered_before: u32)
    ensures
        ({
            let steps = ap_steps(cpu_id, entered_before);
            &&& steps.len() == 6
            &&& entered_before <= 9 ==> steps[0] == ApStep::ShowMarker((48 + entered_before) as u32)
            &&& entered_before > 9 ==> steps[0] == ApStep::ShowMarker(88)
            &&& steps[1] == ApStep::InitPaging
            &&& steps[2] == ApStep::InitPercpu(cpu_id)
            &&& steps[3] == ApStep::SignalApReady
            &&& steps[4] == ApStep::WaitForBsp
            &&& steps[5] == ApStep::EnterKmainAp(cpu_id)
        }),
{
}

} // verus!
