//! Starting the secondary processors, and the controllers behind them.

use kernel::consts::{affinity, phys_to_virt};
use kernel::gic::{
    detect_gic_version_from_hardware, init, init_from_dtb, pidr2_address, DtbInit, GicSetup,
    MadtEntry, MadtGicd,
};
use kernel::secondary::{
    prepare_launch, start_secondary_cpus, start_secondary_cpus_from_dtb, ApOutcome, ApResources,
    ApTarget, MadtGicc, RunState, READY_POLLS,
};

fn gicc(mpidr: u64, flags: u32) -> MadtGicc {
    MadtGicc { mpidr, flags, physical_base_address: 0x1000 * mpidr }
}

fn resources() -> ApResources {
    ApResources {
        stack_base: 0x8000_0000,
        args_base: 0x9000_0000,
        page_table: 0x4100_0000,
        kernel_phys_base: 0x4000_0000,
        idmap_pg_dir: 0x4200_0000,
        tcr_el1: 11,
        mair_el1: 12,
        entry_point_virt: 0xFFFF_FF00_0000_0040,
    }
}

#[test]
fn enabled_processors_are_started_in_order() {
    let giccs = [gicc(0x8000_0000, 1), gicc(1, 1), gicc(2, 0), gicc(0x103, 3), gicc(0x4, 2)];
    let run = start_secondary_cpus(&giccs, 0x8000_0000);
    assert_eq!(
        run.targets,
        vec![ApTarget { mpidr: 1, cpu_id: 1 }, ApTarget { mpidr: 0x103, cpu_id: 2 }]
    );
    assert_eq!(run.state, RunState::NeedsResources);
    assert_eq!(start_secondary_cpus(&giccs[..1], 0).state, RunState::Finished);
}

#[test]
fn processors_of_a_device_tree_are_numbered_by_affinity() {
    let run = start_secondary_cpus_from_dtb(4, 0x8000_0002);
    let ids: Vec<(u64, u64)> = run.targets.iter().map(|t| (t.mpidr, t.cpu_id)).collect();
    assert_eq!(ids, vec![(0, 0), (1, 1), (3, 3)]);
    assert!(start_secondary_cpus_from_dtb(1, 5).targets.is_empty());
    assert!(start_secondary_cpus_from_dtb(0, 5).targets.is_empty());
}

#[test]
fn a_launch_is_put_together() {
    let launch = prepare_launch(&ApTarget { mpidr: 3, cpu_id: 2 }, &resources());
    assert_eq!(launch.args_virt, 0xFFFF_8000_9000_0000);
    assert_eq!(launch.args.cpu_id, 2);
    assert_eq!(launch.args.page_table, 0x4100_0000);
    assert_eq!(launch.args.stack_start, 0xFFFF_8000_8000_0000);
    assert_eq!(launch.args.stack_end, 0xFFFF_8000_8001_0000);
    assert_eq!(launch.args.kernel_phys_base, 0x4000_0000);
    assert_eq!(launch.idmap_pg_dir, 0x4200_0000);
    assert_eq!((launch.tcr_el1, launch.mair_el1), (11, 12));
    assert_eq!(launch.function_id, 0xC400_0003);
    assert_eq!(launch.mpidr, 3);
    assert_eq!(launch.entry_point_phys, 0x4000_0040);
    assert_eq!(launch.args_phys, 0x9000_0000);
}

#[test]
fn a_run_goes_through_all_processors() {
    let giccs = [gicc(0, 1), gicc(1, 1), gicc(2, 1)];
    let mut run = start_secondary_cpus(&giccs, 0);
    assert_eq!(run.current(), ApTarget { mpidr: 1, cpu_id: 1 });
    assert_eq!(run.resources_ready(&resources()).mpidr, 1);
    assert_eq!(run.state, RunState::Launching);
    run.cpu_on_returned(0);
    assert_eq!(run.state, RunState::Waiting(READY_POLLS));
    run.ready_polled(false);
    assert_eq!(run.state, RunState::Waiting(READY_POLLS - 1));
    run.ready_polled(true);
    assert_eq!(run.current(), ApTarget { mpidr: 2, cpu_id: 2 });
    run.resources_ready(&resources());
    run.cpu_on_returned(-2);
    assert_eq!(run.state, RunState::Finished);
    assert_eq!(run.outcomes, vec![ApOutcome::Ready, ApOutcome::Failed(-2)]);
    assert_eq!(run.ap_count(), 2);
}

#[test]
fn a_run_of_a_device_tree_counts_what_was_started() {
    let mut run = start_secondary_cpus_from_dtb(3, 0);
    run.resources_ready(&resources());
    run.cpu_on_returned(-2);
    assert_eq!(run.ap_count(), 0);
    run.resources_ready(&resources());
    run.cpu_on_returned(0);
    while run.state != RunState::Waiting(0) {
        run.ready_polled(false);
    }
    // The last look comes too late, whatever it sees.
    run.ready_polled(true);
    assert_eq!(run.outcomes, vec![ApOutcome::Failed(-2), ApOutcome::TimedOut]);
    assert_eq!(run.ap_count(), 1);
}

#[test]
fn the_hardware_tells_its_version() {
    assert_eq!(detect_gic_version_from_hardware(0x1f), Some(2));
    assert_eq!(detect_gic_version_from_hardware(0x2b), Some(2));
    assert_eq!(detect_gic_version_from_hardware(0xff3b), Some(3));
    assert_eq!(detect_gic_version_from_hardware(0x4b), None);
    assert_eq!(detect_gic_version_from_hardware(0), None);
    assert_eq!(pidr2_address(0x1_0000), 0x1_0fe8);
}

#[test]
fn the_table_is_read() {
    let first = MadtGicd { physical_base_address: 0x800_0000, gic_version: 2 };
    let second = MadtGicd { physical_base_address: 0x900_0000, gic_version: 3 };
    let entries = [
        MadtEntry::Gicc(gicc(0, 1)),
        MadtEntry::Other,
        MadtEntry::Gicd(first),
        MadtEntry::Gicc(gicc(1, 1)),
        MadtEntry::Gicd(second),
    ];
    let plan = init(&entries);
    assert_eq!(plan.giccs, vec![gicc(0, 1), gicc(1, 1)]);
    assert_eq!(plan.cpu_count, Some(2));
    assert_eq!(plan.gicd, Some(first));
    // The hardware knows better than the table.
    assert_eq!(plan.gic_version(0x3b), Some(3));
    assert_eq!(plan.gic_version(0), Some(2));
    match plan.controllers(2, vec![]) {
        GicSetup::V2 { cpu_interfaces } => assert_eq!(cpu_interfaces, vec![0, 0x1000]),
        other => panic!("{:?}", other),
    }
    match plan.controllers(3, vec![(1, 2)]) {
        GicSetup::V3 { cpus, gicrs } => {
            assert_eq!(cpus, 2);
            assert_eq!(gicrs, vec![(1, 2)]);
        }
        other => panic!("{:?}", other),
    }
    assert!(matches!(plan.controllers(4, vec![]), GicSetup::Unsupported));
    let run = plan.secondary_run(true, 0).unwrap();
    assert_eq!(run.targets, vec![ApTarget { mpidr: 1, cpu_id: 1 }]);
    assert!(plan.secondary_run(false, 0).is_none());
}

#[test]
fn an_empty_table_records_nothing() {
    let plan = init(&[]);
    assert_eq!(plan.cpu_count, None);
    assert_eq!(plan.gicd, None);
    assert_eq!(plan.gic_version(0x3b), None);
}

#[test]
fn no_processor_is_started_without_a_distributor() {
    let plan = init(&[MadtEntry::Gicc(gicc(0, 1)), MadtEntry::Gicc(gicc(1, 1))]);
    assert_eq!(plan.cpu_count, Some(2));
    assert!(plan.secondary_run(true, 0).is_none());
}

#[test]
fn the_device_tree_starts_all_processors_or_none() {
    assert_eq!(init_from_dtb(0, true), DtbInit::SingleCpu);
    assert_eq!(init_from_dtb(1, true), DtbInit::SingleCpu);
    assert_eq!(init_from_dtb(4, true), DtbInit::StartAll(4));
    assert_eq!(init_from_dtb(4, false), DtbInit::NotBuiltIn);
}

#[test]
fn addresses_and_affinities() {
    assert_eq!(phys_to_virt(0x1234), 0xFFFF_8000_0000_1234);
    assert_eq!(affinity(0xffff_ffff_ffff_ffff), 0xff_00ff_ffff);
}
