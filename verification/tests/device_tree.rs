//! Device trees, built by hand and read back.

use kernel::consts::{NANOS_PER_SEC, PHYS_OFFSET};
use kernel::cpu_set::LogicalCpuId;
use kernel::device::rtc;
use kernel::dtb::tree::{property, DtDevice, DtNode, DtProp, DtRegion, FdtError};
use kernel::dtb::walk::{is_readable, is_walkable, read_be32};
use kernel::gic;
use kernel::smp_sync::{init_smp_sync_normal, read_ap_entry, SmpSync};
use kernel::start::{
    ap_args_address, classify_hwdesc, count_cpus, enumerate_cpus_from_dtb, is_secondary,
    parse_hwdesc, start, start_ap_shared, ApStep, BootStep, Features, HwDesc, KernelArgs, KernelArgsAp, StartPlan,
};

/// Writes the structure and the strings block of a tree.
struct Builder {
    structs: Vec<u8>,
    strings: Vec<u8>,
}

impl Builder {
    fn new() -> Self {
        Builder { structs: Vec::new(), strings: Vec::new() }
    }

    fn word(&mut self, word: u32) {
        self.structs.extend_from_slice(&word.to_be_bytes());
    }

    fn pad(&mut self) {
        while self.structs.len() % 4 != 0 {
            self.structs.push(0);
        }
    }

    fn begin(&mut self, name: &str) -> &mut Self {
        self.word(1);
        self.structs.extend_from_slice(name.as_bytes());
        self.structs.push(0);
        self.pad();
        self
    }

    fn end(&mut self) -> &mut Self {
        self.word(2);
        self
    }

    fn nop(&mut self) -> &mut Self {
        self.word(4);
        self
    }

    fn prop(&mut self, name: &str, value: &[u8]) -> &mut Self {
        let offset = self.strings.len() as u32;
        self.strings.extend_from_slice(name.as_bytes());
        self.strings.push(0);
        self.word(3);
        self.word(value.len() as u32);
        self.word(offset);
        self.structs.extend_from_slice(value);
        self.pad();
        self
    }

    fn cells(&mut self, name: &str, words: &[u32]) -> &mut Self {
        let mut value = Vec::new();
        for word in words {
            value.extend_from_slice(&word.to_be_bytes());
        }
        self.prop(name, &value)
    }

    fn finish(&mut self) -> Vec<u8> {
        self.word(5);
        let struct_off = 40u32 + 16;
        let strings_off = struct_off + self.structs.len() as u32;
        let total = strings_off + self.strings.len() as u32;
        let mut blob = Vec::new();
        for word in [
            0xd00d_feed,
            total,
            struct_off,
            strings_off,
            40,
            17,
            16,
            0,
            self.strings.len() as u32,
            self.structs.len() as u32,
        ] {
            blob.extend_from_slice(&u32::to_be_bytes(word));
        }
        blob.extend_from_slice(&[0; 16]);
        blob.extend_from_slice(&self.structs);
        blob.extend_from_slice(&self.strings);
        blob
    }
}

fn machine() -> Vec<u8> {
    let mut b = Builder::new();
    b.begin("");
    b.cells("#address-cells", &[2]).cells("#size-cells", &[2]);
    b.begin("memory@40000000").cells("reg", &[0, 0x4000_0000, 0, 0x800_0000]).end();
    b.begin("cpus").cells("#address-cells", &[1]).cells("#size-cells", &[0]);
    b.begin("cpu@0").cells("reg", &[0]).end();
    b.begin("cpu@1").cells("reg", &[1]).prop("status", b"okay\0").end();
    b.begin("cpu@2").cells("reg", &[2]).prop("status", b"disabled\0").end();
    b.begin("cpu@3").prop("status", b"disabled\0").end();
    b.begin("cpu").cells("reg", &[4]).prop("status", b"ok\0").end();
    b.begin("cpu-map").end();
    b.begin("cpu@5").cells("reg", &[5]).prop("status", &[0xff, 0]).end();
    b.end();
    b.end();
    b.finish()
}

#[test]
fn counts_enabled_cpus() {
    let dtb = machine();
    assert!(is_walkable(&dtb, "/cpus"));
    // cpu@0, cpu@1, cpu@3 (no reg), cpu, and cpu@5, whose status is no text.
    assert_eq!(enumerate_cpus_from_dtb(&dtb), 5);
}

#[test]
fn counts_one_cpu_where_none_is_listed() {
    let mut b = Builder::new();
    b.begin("").begin("cpus").begin("cpu-map").end().end().end();
    assert_eq!(enumerate_cpus_from_dtb(&b.finish()), 1);
    let mut b = Builder::new();
    b.begin("").end();
    assert_eq!(enumerate_cpus_from_dtb(&b.finish()), 1);
    assert_eq!(count_cpus(&None), 1);
}

#[test]
fn counts_cpus_of_given_nodes() {
    let reg = DtProp { name: "reg".to_string(), value: vec![0, 0, 0, 7] };
    let failed = DtProp { name: "status".to_string(), value: b"fail\0\0".to_vec() };
    let okay = DtProp { name: "status".to_string(), value: b"okay".to_vec() };
    let nodes = vec![
        DtNode { name: "cpu@0".to_string(), props: vec![reg.clone(), failed.clone()] },
        DtNode { name: "cpu@1".to_string(), props: vec![okay.clone(), reg.clone(), failed] },
        DtNode { name: "cpux".to_string(), props: vec![reg.clone()] },
        DtNode { name: "cpu".to_string(), props: vec![okay, reg] },
    ];
    assert_eq!(count_cpus(&Some(nodes)), 2);
}

#[test]
fn the_first_property_of_a_name_is_found() {
    let props = vec![
        DtProp { name: "a".to_string(), value: vec![1] },
        DtProp { name: "b".to_string(), value: vec![2] },
        DtProp { name: "b".to_string(), value: vec![3] },
    ];
    assert_eq!(property(&props, "b"), Some(&vec![2]));
    assert_eq!(property(&props, "c"), None);
}

fn walkable(b: &mut Builder) -> bool {
    is_walkable(&b.finish(), "/cpus")
}

/// A node that cannot be skipped.
fn unskippable(b: &mut Builder) -> &mut Builder {
    b.begin("odd").cells("x", &[1]).nop().cells("y", &[2]).end()
}

#[test]
fn tokens_without_a_meaning_have_their_places() {
    // Before the root node, anywhere in one without a name, and at the end of a
    // node.
    let mut b = Builder::new();
    b.nop().begin("").nop().cells("x", &[1]);
    b.begin("a").cells("x", &[1]).nop().end();
    b.begin("cpus").begin("cpu@0").nop().end().nop().end().nop().end().nop();
    let dtb = b.finish();
    assert!(is_walkable(&dtb, "/cpus") && is_readable(&dtb));
    assert_eq!(enumerate_cpus_from_dtb(&dtb), 1);
    // Between the children of the node, and before and behind its properties.
    let mut b = Builder::new();
    b.begin("").begin("cpus").nop().cells("x", &[1]);
    b.begin("cpu@0").end().nop().begin("cpu@1").end().nop().nop().begin("cpu@2").end().end().end();
    let dtb = b.finish();
    assert!(is_walkable(&dtb, "/cpus"));
    assert_eq!(enumerate_cpus_from_dtb(&dtb), 3);
    // In nodes behind it, but not in those before it or in its children.
    let mut b = Builder::new();
    b.begin("").begin("cpus").begin("cpu@0").end().begin("cpu@1").end().end();
    unskippable(&mut b).end();
    let dtb = b.finish();
    assert!(is_walkable(&dtb, "/cpus") && is_readable(&dtb));
    assert_eq!(enumerate_cpus_from_dtb(&dtb), 2);
    assert!(!is_walkable(&dtb, "/other"));
    let mut b = Builder::new();
    unskippable(b.begin("")).begin("cpus").end().end();
    let dtb = b.finish();
    assert!(!is_walkable(&dtb, "/cpus") && is_readable(&dtb));
    let mut b = Builder::new();
    unskippable(b.begin("").begin("cpus")).end().end();
    assert!(!walkable(&mut b));
    // In a root node with a name, which is skipped.
    let mut b = Builder::new();
    b.begin("root").nop().cells("x", &[1]).end();
    assert!(!walkable(&mut b));
    let mut b = Builder::new();
    b.begin("root").cells("x", &[1]).end();
    let dtb = b.finish();
    assert!(is_walkable(&dtb, "/cpus"));
    assert_eq!(enumerate_cpus_from_dtb(&dtb), 1);
}

#[test]
fn only_what_is_on_the_way_matters() {
    // Cell counts that are too short, and properties named like a path.
    let mut b = Builder::new();
    b.begin("").prop("#address-cells", &[0, 2]).prop("/cpus", b"x\0");
    b.begin("cpus").begin("cpu").end().end().end();
    let dtb = b.finish();
    assert!(is_walkable(&dtb, "/cpus") && !is_readable(&dtb));
    assert_eq!(enumerate_cpus_from_dtb(&dtb), 1);
    // No last token, and a node that is not closed.
    let mut b = Builder::new();
    b.begin("").begin("cpus").begin("cpu@0").end().begin("cpu@1").end().end();
    b.begin("odd");
    let mut dtb = b.finish();
    let size = read_be32(&dtb, 36) - 4;
    dtb[36..40].copy_from_slice(&size.to_be_bytes());
    assert!(is_walkable(&dtb, "/cpus") && is_readable(&dtb));
    assert_eq!(enumerate_cpus_from_dtb(&dtb), 2);
    // A property behind the children: the children end there.
    let mut b = Builder::new();
    b.begin("").begin("cpus").begin("cpu@0").end().cells("x", &[1]).end().end();
    let dtb = b.finish();
    assert!(is_walkable(&dtb, "/cpus"));
    assert_eq!(enumerate_cpus_from_dtb(&dtb), 1);
}

#[test]
fn an_alias_named_like_the_path_is_refused() {
    let mut b = Builder::new();
    b.begin("").begin("aliases").prop("/cpus", b"/cpus\0").end().end();
    assert!(!walkable(&mut b));
    let mut b = Builder::new();
    b.begin("").begin("aliases").prop("cpus", b"/cpus\0").end().end();
    let dtb = b.finish();
    assert!(is_walkable(&dtb, "/cpus"));
    assert_eq!(enumerate_cpus_from_dtb(&dtb), 1);
    // Where the node is found, aliases are not looked at.
    let mut b = Builder::new();
    b.begin("").begin("aliases").prop("/cpus", b"/cpus\0").end().begin("cpus").end().end();
    assert!(walkable(&mut b));
}

#[test]
fn paths_are_short() {
    let dtb = machine();
    for path in ["", "/", "cpus", "/cpus/cpu", "/cpus@0"] {
        assert!(!is_walkable(&dtb, path));
    }
    assert!(is_walkable(&dtb, "/memory"));
}

#[test]
fn malformed_trees_are_refused() {
    // A node closed too often.
    let mut b = Builder::new();
    b.begin("").end().end();
    assert!(!is_readable(&b.finish()));
    // A node on the way that is not closed.
    let mut b = Builder::new();
    b.begin("").begin("a");
    assert!(!walkable(&mut b));
    // A cell count that is too short, in a node with children.
    let mut b = Builder::new();
    b.begin("").prop("#size-cells", &[0, 2]).begin("a").end().end();
    assert!(!is_readable(&b.finish()));
    let mut b = Builder::new();
    b.begin("").begin("a").prop("#size-cells", &[0, 2]).end().end();
    assert!(is_readable(&b.finish()));
    // A strings block that reaches out of the blob, where there are properties.
    for properties in [false, true] {
        let mut b = Builder::new();
        b.begin("").begin("cpus");
        if properties {
            b.cells("x", &[1]);
        }
        b.end().end();
        let mut dtb = b.finish();
        dtb[32] = 1;
        assert_eq!(is_readable(&dtb), !properties);
        assert_eq!(is_walkable(&dtb, "/cpus"), !properties);
        if !properties {
            assert_eq!(enumerate_cpus_from_dtb(&dtb), 1);
            assert_eq!(gic::detect_gic_version_from_fdt(Some(&dtb)), None);
        }
    }
    // A name that is no UTF-8, and one that is.
    let mut b = Builder::new();
    b.begin("").begin("n\u{e4}he").end().end();
    let mut dtb = b.finish();
    assert!(is_walkable(&dtb, "/cpus") && is_readable(&dtb));
    let at = dtb.iter().position(|&byte| byte == 0xc3).unwrap();
    dtb[at + 1] = b'x';
    assert!(!is_walkable(&dtb, "/cpus") && !is_readable(&dtb));
    // A block that reaches out of the blob.
    let mut dtb = machine();
    dtb[36] = 1;
    assert!(!is_walkable(&dtb, "/cpus") && !is_readable(&dtb));
    // A value that reaches out of the block.
    let mut b = Builder::new();
    b.begin("");
    b.word(3);
    b.word(1000);
    b.word(0);
    assert!(!walkable(&mut b));
    assert!(!is_readable(&b.finish()));
    assert!(!is_readable(&[]) && !is_walkable(&[], "/cpus"));
}

#[test]
fn nodes_nest_so_deep_and_no_deeper() {
    for (depth, ok) in [(63, true), (64, false)] {
        let mut b = Builder::new();
        for i in 0..depth {
            b.begin(if i == 0 { "" } else { "n" });
        }
        for _ in 0..depth {
            b.end();
        }
        let dtb = b.finish();
        assert_eq!(is_walkable(&dtb, "/cpus"), ok);
        assert_eq!(is_readable(&dtb), ok);
    }
}

#[test]
fn words_are_big_endian() {
    assert_eq!(read_be32(&[9, 0xd0, 0x0d, 0xfe, 0xed], 1), 0xd00d_feed);
}

#[test]
fn hardware_descriptions_are_told_apart() {
    let args = KernelArgs { hwdesc_base: 0x4000_0000, hwdesc_size: 100 };
    let dtb = [0xd0, 0x0d, 0xfe, 0xed, 0, 0, 1, 0];
    assert_eq!(
        classify_hwdesc(&args, &dtb),
        HwDesc { data_len: Some(256 + 65536), is_dtb: true }
    );
    let large = KernelArgs { hwdesc_base: 0x4000_0000, hwdesc_size: 0x10_0000 };
    assert_eq!(
        classify_hwdesc(&large, &dtb),
        HwDesc { data_len: Some(0x10_0000), is_dtb: true }
    );
    assert_eq!(
        classify_hwdesc(&args, b"RSD PTR "),
        HwDesc { data_len: None, is_dtb: false }
    );
    assert_eq!(
        classify_hwdesc(&args, b"whatever"),
        HwDesc { data_len: Some(100), is_dtb: false }
    );
    let none = KernelArgs { hwdesc_base: 0, hwdesc_size: 100 };
    assert_eq!(classify_hwdesc(&none, &dtb), HwDesc { data_len: None, is_dtb: false });
    let small = KernelArgs { hwdesc_base: 0x4000_0000, hwdesc_size: 7 };
    assert_eq!(classify_hwdesc(&small, &[]), HwDesc { data_len: None, is_dtb: false });
}

#[test]
fn a_device_tree_is_accepted_or_refused_for_a_reason() {
    let yes = HwDesc { data_len: None, is_dtb: true };
    let no = HwDesc { data_len: None, is_dtb: false };
    let dtb = machine();
    assert_eq!(parse_hwdesc(&yes, &dtb), Ok(()));
    assert_eq!(parse_hwdesc(&no, &dtb), Err(FdtError::BadPtr));
    assert_eq!(parse_hwdesc(&yes, &dtb[..39]), Err(FdtError::BufferTooSmall));
    assert_eq!(parse_hwdesc(&yes, &dtb[..dtb.len() - 1]), Err(FdtError::BufferTooSmall));
    let mut other = dtb.clone();
    other[0] = 0;
    assert_eq!(parse_hwdesc(&yes, &other), Err(FdtError::BadMagic));
}

#[test]
fn what_is_recognised_is_accepted() {
    let mut dtb = machine();
    let args = KernelArgs { hwdesc_base: 0x4000_0000, hwdesc_size: dtb.len() as u64 };
    let desc = classify_hwdesc(&args, &dtb[..8]);
    assert!(desc.is_dtb);
    dtb.resize(desc.data_len.unwrap() as usize, 0);
    assert_eq!(parse_hwdesc(&desc, &dtb), Ok(()));
}

fn steps_of(plan: StartPlan) -> Vec<BootStep> {
    match plan {
        StartPlan::Primary(steps) => steps,
        StartPlan::Secondary => panic!("not the boot processor"),
    }
}

#[test]
fn the_boot_processor_follows_the_device_tree() {
    let dtb = machine();
    let args = KernelArgs { hwdesc_base: 0x4000_0000, hwdesc_size: dtb.len() as u64 };
    let features = Features { multi_core: true, acpi: true };
    let steps = steps_of(start(0x8000_0000, &args, &dtb[..8], &dtb, &features));
    assert_eq!(
        steps,
        vec![
            BootStep::SerialFromDtb,
            BootStep::GraphicalDebug,
            BootStep::PrintArgs,
            BootStep::RegisterDeviceRegion { base: 0x0800_0000, size: 0x0800_0000 },
            BootStep::RegisterDeviceRegion { base: 0x1000_0000, size: 0x3000_0000 },
            BootStep::RegisterDeviceRegion { base: 0x40_1000_0000, size: 0x1000_0000 },
            BootStep::InitMemory,
            BootStep::InitPaging,
            BootStep::InitPercpu(LogicalCpuId::new(0)),
            BootStep::ResetReadyFlags,
            BootStep::InitHeap,
            BootStep::InitLog,
            BootStep::InitSmpSync,
            BootStep::StoreCpuCount(5),
            BootStep::PublishDtb {
                address: 0x4000_0000 + PHYS_OFFSET,
                len: dtb.len() as u64,
            },
            BootStep::InitDeviceTree,
            BootStep::StartSecondaryCpus,
            BootStep::SignalBspReady,
            BootStep::EnterKmain,
        ]
    );
    let single = Features { multi_core: false, acpi: true };
    let steps = steps_of(start(0, &args, &dtb[..8], &dtb, &single));
    assert!(!steps.contains(&BootStep::StartSecondaryCpus));
}

#[test]
fn the_boot_processor_does_without_a_device_tree() {
    let args = KernelArgs { hwdesc_base: 0, hwdesc_size: 0 };
    let acpi = Features { multi_core: true, acpi: true };
    let steps = steps_of(start(0, &args, &[], &[], &acpi));
    assert_eq!(steps[0], BootStep::SerialAt(0xFFFF_8000_0900_0000));
    assert_eq!(
        steps[13..],
        [
            BootStep::PublishNoDtb,
            BootStep::InitAcpi,
            BootStep::InitRtcFallback,
            BootStep::SignalBspReady,
            BootStep::EnterKmain,
        ]
    );
    let bare = Features { multi_core: true, acpi: false };
    let steps = steps_of(start(0, &args, &[], &[], &bare));
    assert_eq!(steps[13..15], [BootStep::PublishNoDtb, BootStep::InitRtcFallback]);
}

#[test]
fn other_processors_go_another_way() {
    let args = KernelArgs { hwdesc_base: 0, hwdesc_size: 0 };
    let features = Features { multi_core: true, acpi: true };
    for mpidr in [1, 0x100, 0x80_0000, 0x1_0000_0000] {
        let plan = start(mpidr, &args, &[], &[], &features);
        assert!(matches!(plan, StartPlan::Secondary));
        assert!(is_secondary(mpidr));
    }
    // Bits 24 to 31 and above 39 are no part of the affinity.
    let plan = start(0xffff_ff00_ff00_0000, &args, &[], &[], &features);
    assert!(matches!(plan, StartPlan::Primary(_)));
}

#[test]
fn secondary_processors_are_counted_on_their_way_in() {
    let mut sync = SmpSync::new();
    assert_eq!(init_smp_sync_normal(&mut sync, Some(0x1000)), Ok(()));
    let args = KernelArgsAp {
        cpu_id: 0x1_0000_0003,
        page_table: 0,
        stack_start: 0,
        stack_end: 0,
        kernel_phys_base: 0,
    };
    let cpu = LogicalCpuId::new(3);
    assert_eq!(
        start_ap_shared(&args, &mut sync),
        vec![
            ApStep::ShowMarker('0' as u32),
            ApStep::InitPaging,
            ApStep::InitPercpu(cpu),
            ApStep::SignalApReady,
            ApStep::WaitForBsp,
            ApStep::EnterKmainAp(cpu),
        ]
    );
    for _ in 1..9 {
        start_ap_shared(&args, &mut sync);
    }
    assert_eq!(start_ap_shared(&args, &mut sync)[0], ApStep::ShowMarker('9' as u32));
    assert_eq!(start_ap_shared(&args, &mut sync)[0], ApStep::ShowMarker('X' as u32));
    assert_eq!(read_ap_entry(&sync), 11);
    assert_eq!(ap_args_address(0x1000), 0xFFFF_8000_0000_1000);
}

fn gic_machine(regions: Option<&[u32]>) -> Vec<u8> {
    let mut b = Builder::new();
    b.begin("");
    b.cells("#address-cells", &[2]).cells("#size-cells", &[2]);
    b.begin("intc@8000000").prop("compatible", b"vendor,thing\0arm,gic-v3\0");
    if let Some(count) = regions {
        b.cells("#redistributor-regions", count);
    }
    b.cells("reg", &[
        0, 0x800_0000, 0, 0x1_0000, 0, 0x80a_0000, 0, 0xf6_0000, 0x40, 0, 0, 0x200_0000,
    ]);
    b.end();
    b.end();
    b.finish()
}

#[test]
fn the_device_tree_names_the_interrupt_controller() {
    assert_eq!(gic::detect_gic_version_from_fdt(None), None);
    assert_eq!(gic::detect_gic_version_from_fdt(Some(&gic_machine(None))), Some(3));
    assert_eq!(gic::detect_gic_version_from_fdt(Some(&machine())), None);
    for name in ["arm,cortex-a15-gic\0", "arm,gic-400\0"] {
        let mut b = Builder::new();
        b.begin("").begin("intc").prop("compatible", name.as_bytes()).end().end();
        assert_eq!(gic::detect_gic_version_from_fdt(Some(&b.finish())), Some(2));
    }
}

#[test]
fn redistributors_follow_the_distributor() {
    let first = DtRegion { address: 0x80a_0000, size: Some(0xf6_0000) };
    let second = DtRegion { address: 0x40_0000_0000, size: Some(0x200_0000) };
    // One region unless the tree says otherwise.
    for count in [None, Some(&[1][..]), Some(&[1, 2, 3][..])] {
        let dtb = gic_machine(count);
        assert_eq!(gic::gicv3_redistributor_regions(Some(&dtb)), Some(vec![first]));
    }
    for count in [&[2][..], &[9][..], &[0, 5][..]] {
        let dtb = gic_machine(Some(count));
        assert_eq!(gic::gicv3_redistributor_regions(Some(&dtb)), Some(vec![first, second]));
    }
    let dtb = gic_machine(Some(&[0]));
    assert_eq!(gic::gicv3_redistributor_regions(Some(&dtb)), Some(vec![]));
    assert_eq!(gic::gicv3_redistributor_regions(None), Some(vec![]));
    assert_eq!(gic::gicv3_redistributor_regions(Some(&machine())), Some(vec![]));
    // No readable `reg`.
    let mut b = Builder::new();
    b.begin("").begin("intc").prop("compatible", b"arm,gic-v3\0").end().end();
    assert_eq!(gic::gicv3_redistributor_regions(Some(&b.finish())), None);
}

#[test]
fn redistributors_are_those_that_can_be_reached() {
    let dtb = gic_machine(Some(&[2]));
    let all = gic::get_gicv3_redistributors_from_fdt(Some(&dtb), |region: DtRegion| {
        Some(region.address + 1)
    });
    assert_eq!(all, Some(vec![(0x80a_0001, 0xf6_0000), (0x40_0000_0001, 0x200_0000)]));
    let some = gic::get_gicv3_redistributors_from_fdt(Some(&dtb), |region: DtRegion| {
        if region.address == 0x80a_0000 {
            None
        } else {
            Some(region.address)
        }
    });
    assert_eq!(some, Some(vec![(0x40_0000_0000, 0x200_0000)]));
    let regions = vec![
        DtRegion { address: 1, size: None },
        DtRegion { address: 2, size: Some(3) },
        DtRegion { address: 4, size: None },
    ];
    assert_eq!(
        gic::redistributors_at(&regions, &vec![Some(10), None, Some(40)]),
        vec![(10, 0x20000), (40, 0x20000)]
    );
    let device = DtDevice {
        props: vec![DtProp {
            name: "#redistributor-regions".to_string(),
            value: vec![0, 0, 0, 1],
        }],
        reg: Some(regions),
    };
    assert_eq!(
        gic::redistributor_regions_of(&device),
        vec![DtRegion { address: 2, size: Some(3) }]
    );
}

fn clock_machine() -> Vec<u8> {
    let mut b = Builder::new();
    b.begin("");
    b.cells("#address-cells", &[1]).cells("#size-cells", &[1]);
    b.begin("pl031@9010000").prop("compatible", b"arm,pl031\0arm,primecell\0");
    b.cells("reg", &[0x901_0000, 0x1000]).end();
    b.end();
    b.finish()
}

#[test]
fn the_clock_of_the_device_tree_sets_the_time() {
    let dtb = clock_machine();
    assert_eq!(
        rtc::find_clock(&dtb),
        Some(DtRegion { address: 0x901_0000, size: Some(0x1000) })
    );
    let mut time = 5;
    rtc::init(
        &dtb,
        |region: DtRegion| Some(region.address + 0x100),
        |address: u64| if address == 0xFFFF_8000_0901_0100 { 1_700_000_000 } else { 0 },
        &mut time,
    );
    assert_eq!(time, 1_700_000_000 * NANOS_PER_SEC);
    // Out of reach, or not there.
    let mut time = 5;
    rtc::init(&dtb, |_: DtRegion| None, |_: u64| 7, &mut time);
    assert_eq!(time, 5);
    rtc::init(&machine(), |region: DtRegion| Some(region.address), |_: u64| 7, &mut time);
    assert_eq!(time, 5);
}

#[test]
fn the_customary_clock_sets_the_time_unless_it_shows_zero() {
    let mut time = 5;
    rtc::init_qemu_virt(|_: u64| 0, &mut time);
    assert_eq!(time, 5);
    rtc::init_qemu_virt(
        |address: u64| if address == 0xFFFF_8000_0901_0000 { 3 } else { 0 },
        &mut time,
    );
    assert_eq!(time, 3_000_000_000);
    let region = DtRegion { address: 7, size: None };
    let other = DtRegion { address: 8, size: Some(1) };
    for (reg, first) in [
        (None, None),
        (Some(vec![]), None),
        (Some(vec![region]), Some(region)),
        (Some(vec![other, region]), Some(other)),
    ] {
        assert_eq!(rtc::first_region(&DtDevice { props: vec![], reg }), first);
    }
    let clock = rtc::Pl031rtc { phys: 0x10 };
    assert_eq!(clock.time(|address: u64| address as u32), 0x10);
    assert_eq!(rtc::start_of(2), 2_000_000_000);
}
