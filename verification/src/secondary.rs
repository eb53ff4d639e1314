//! Starting the secondary processors through the firmware.
//!
//! [`start_secondary_cpus`] and [`start_secondary_cpus_from_dtb`] pick the
//! processors to start. The run then goes through them one by one: it asks for
//! memory, launches the processor, and waits for it to report.

use crate::consts::{affinity, phys_to_virt, AFFINITY_MASK, KERNEL_OFFSET, PAGE_SIZE, PHYS_OFFSET};
use crate::start::KernelArgsAp;
use vstd::prelude::*;

verus! {

/// Firmware function that starts a processor.
pub const PSCI_CPU_ON_64: u64 = 0xC400_0003;

/// How often the ready flag is looked at before the wait is given up.
pub const READY_POLLS: u32 = 10_000_000;

/// Pages of a secondary processor's stack, as a power of two.
pub const STACK_ORDER: u32 = 4;

/// The GIC CPU interface of a processor, as the ACPI tables list it.
#[derive(Clone, Copy, Debug, PartialEq, Eq, Structural)]
pub struct MadtGicc {
    /// Its `MPIDR_EL1`.
    pub mpidr: u64,
    /// Flags; the lowest says that the processor is enabled.
    pub flags: u32,
    /// Physical address of the interface.
    pub physical_base_address: u64,
}

/// A processor to start.
#[derive(Clone, Copy, Debug, PartialEq, Eq, Structural)]
pub struct ApTarget {
    /// Its affinity.
    pub mpidr: u64,
    /// The number that it gets.
    pub cpu_id: u64,
}

/// The memory and the registers that a launch needs.
#[derive(Clone, Copy, Debug, PartialEq, Eq, Structural)]
pub struct ApResources {
    /// Physical address of the stack.
    pub stack_base: u64,
    /// Physical address of the frame for the arguments.
    pub args_base: u64,
    /// Physical address of the kernel page table.
    pub page_table: u64,
    /// Physical address of the kernel image.
    pub kernel_phys_base: u64,
    /// Physical address of the identity page table.
    pub idmap_pg_dir: u64,
    /// `TCR_EL1` of the boot processor.
    pub tcr_el1: u64,
    /// `MAIR_EL1` of the boot processor.
    pub mair_el1: u64,
    /// Address of the entry point in the kernel image.
    pub entry_point_virt: u64,
}

/// A launch: what to write for the processor, and how to call the firmware.
#[derive(Clone, Copy, Debug, PartialEq, Eq, Structural)]
pub struct ApLaunch {
    /// Where to write the arguments.
    pub args_virt: u64,
    /// The arguments.
    pub args: KernelArgsAp,
    /// Physical address of the identity page table, written behind them.
    pub idmap_pg_dir: u64,
    /// `TCR_EL1` for the processor, written behind them.
    pub tcr_el1: u64,
    /// `MAIR_EL1` for the processor, written behind them.
    pub mair_el1: u64,
    /// Firmware function.
    pub function_id: u64,
    /// Its first argument: which processor.
    pub mpidr: u64,
    /// Its second argument: where the processor starts.
    pub entry_point_phys: u64,
    /// Its third argument: what the processor finds in its first register.
    pub args_phys: u64,
}

/// What became of a processor.
#[derive(Clone, Copy, Debug, PartialEq, Eq, Structural)]
pub enum ApOutcome {
    /// It reported in time.
    Ready,
    /// It did not report in time.
    TimedOut,
    /// The firmware refused to start it, with this code.
    Failed(i64),
}

/// Which processors a run counts as started.
#[derive(Clone, Copy, Debug, PartialEq, Eq, Structural)]
pub enum Counting {
    /// All that it tried.
    Tried,
    /// Those that the firmware started.
    Started,
}

/// Where a run stands.
#[derive(Clone, Copy, Debug, PartialEq, Eq, Structural)]
pub enum RunState {
    /// The next processor needs memory.
    NeedsResources,
    /// The firmware is being called.
    Launching,
    /// The processor is running; so many looks at its flag are left.
    Waiting(u32),
    /// No processor is left.
    Finished,
}

/// A run through the processors to start.
#[derive(Clone, Debug)]
pub struct SecondaryBoot {
    /// The processors to start, in order.
    pub targets: Vec<ApTarget>,
    /// What became of those that are done.
    pub outcomes: Vec<ApOutcome>,
    /// Which ones count.
    pub counting: Counting,
    /// Where the run stands.
    pub state: RunState,
}

/// The affinity of a CPU interface.
pub open spec fn gicc_affinity(gicc: MadtGicc) -> u64 {
    gicc.mpidr & AFFINITY_MASK
}

/// The CPU interface belongs to an enabled processor other than the boot
/// processor.
pub open spec fn to_be_started(gicc: MadtGicc, bsp: u64) -> bool {
    gicc_affinity(gicc) != bsp && gicc.flags & 1 != 0
}

/// The CPU interfaces of the processors to start.
pub open spec fn started_giccs(giccs: Seq<MadtGicc>, bsp: u64) -> Seq<MadtGicc> {
    giccs.filter(|gicc: MadtGicc| to_be_started(gicc, bsp))
}

/// The processors to start on a machine with these CPU interfaces: the boot
/// processor and the disabled ones left out, numbered from one.
pub open spec fn madt_targets(giccs: Seq<MadtGicc>, bsp: u64) -> Seq<ApTarget> {
    let started = started_giccs(giccs, bsp);
    Seq::new(
        started.len(),
        |i: int| ApTarget { mpidr: gicc_affinity(started[i]), cpu_id: (i + 1) as u64 },
    )
}

/// The processors to start on a machine whose `total` processors have the
/// affinities from zero on: all but the boot processor, each numbered by its
/// affinity.
pub open spec fn dtb_targets(total: nat, bsp: u64) -> Seq<ApTarget>
    decreases total,
{
    if total == 0 {
        Seq::empty()
    } else {
        let last = (total - 1) as u64;
        let before = dtb_targets((total - 1) as nat, bsp);
        if last == bsp {
            before
        } else {
            before.push(ApTarget { mpidr: last, cpu_id: last })
        }
    }
}

/// The launch of a processor with the given memory.
pub open spec fn launch_of(target: ApTarget, res: ApResources) -> ApLaunch {
    ApLaunch {
        args_virt: (res.args_base + PHYS_OFFSET) as u64,
        args: KernelArgsAp {
            cpu_id: target.cpu_id,
            page_table: res.page_table,
            stack_start: (res.stack_base + PHYS_OFFSET) as u64,
            stack_end: (res.stack_base + PHYS_OFFSET + 16 * PAGE_SIZE) as u64,
            kernel_phys_base: res.kernel_phys_base,
        },
        idmap_pg_dir: res.idmap_pg_dir,
        tcr_el1: res.tcr_el1,
        mair_el1: res.mair_el1,
        function_id: PSCI_CPU_ON_64,
        mpidr: target.mpidr,
        entry_point_phys: (res.kernel_phys_base + (res.entry_point_virt - KERNEL_OFFSET)) as u64,
        args_phys: res.args_base,
    }
}

/// Every address of the launch fits in a register.
pub open spec fn launch_fits(res: ApResources) -> bool {
    &&& res.args_base + PHYS_OFFSET <= u64::MAX
    &&& res.stack_base + PHYS_OFFSET + 16 * PAGE_SIZE <= u64::MAX
    &&& res.entry_point_virt >= KERNEL_OFFSET
    &&& res.kernel_phys_base + (res.entry_point_virt - KERNEL_OFFSET) <= u64::MAX
}

/// Puts the launch of a processor together.
pub fn prepare_launch(target: &ApTarget, res: &ApResources) -> (launch: ApLaunch)
    requires
        launch_fits(*res),
    ensures
        launch == launch_of(*target, *res),
{
    assert(PAGE_SIZE << STACK_ORDER == 16 * PAGE_SIZE) by (bit_vector);
    let stack_start: u64 = phys_to_virt(res.stack_base);
    ApLaunch {
        args_virt: phys_to_virt(res.args_base),
        args: KernelArgsAp {
            cpu_id: target.cpu_id,
            page_table: res.page_table,
            stack_start,
            stack_end: stack_start + (PAGE_SIZE << STACK_ORDER),
            kernel_phys_base: res.kernel_phys_base,
        },
        idmap_pg_dir: res.idmap_pg_dir,
        tcr_el1: res.tcr_el1,
        mair_el1: res.mair_el1,
        function_id: PSCI_CPU_ON_64,
        mpidr: target.mpidr,
        entry_point_phys: res.kernel_phys_base + (res.entry_point_virt - KERNEL_OFFSET),
        args_phys: res.args_base,
    }
}

/// The outcome counts as a started processor.
pub open spec fn is_counted(counting: Counting, outcome: ApOutcome) -> bool {
    counting is Tried || !(outcome is Failed)
}

/// The state behind `done` of `total` processors.
pub open spec fn state_after(done: nat, total: nat) -> RunState {
    if done < total {
        RunState::NeedsResources
    } else {
        RunState::Finished
    }
}

impl SecondaryBoot {
    /// The run is in order: it has an outcome for each processor before the
    /// current one, and it is finished exactly if none is left.
    pub open spec fn wf(&self) -> bool {
        &&& self.outcomes@.len() <= self.targets@.len()
        &&& self.state is Finished <==> self.outcomes@.len() == self.targets@.len()
        &&& self.state matches RunState::Waiting(left) ==> left <= READY_POLLS
    }

    /// The processor that the run is at.
    pub open spec fn at(&self) -> ApTarget {
        self.targets@[self.outcomes@.len() as int]
    }

    /// `next` is this run in another state, at the same processor.
    pub open spec fn moved_to(&self, next: &Self, state: RunState) -> bool {
        &&& next.targets == self.targets
        &&& next.outcomes == self.outcomes
        &&& next.counting == self.counting
        &&& next.state == state
    }

    /// `next` is this run behind its current processor, which came to `outcome`.
    pub open spec fn advanced_to(&self, next: &Self, outcome: ApOutcome) -> bool {
        &&& next.targets == self.targets
        &&& next.outcomes@ == self.outcomes@.push(outcome)
        &&& next.counting == self.counting
        &&& next.state == state_after(self.outcomes@.len() + 1, self.targets@.len())
    }

    /// Sets out to start the given processors.
    fn begin(targets: Vec<ApTarget>, counting: Counting) -> (run: Self)
        ensures
            run.wf(),
            run.targets == targets,
            run.outcomes@ == Seq::<ApOutcome>::empty(),
            run.counting == counting,
            run.state == state_after(0, targets@.len()),
    {
        let state = if targets.len() == 0 {
            RunState::Finished
        } else {
            RunState::NeedsResources
        };
        SecondaryBoot { targets, outcomes: Vec::new(), counting, state }
    }

    /// Leaves the current processor with the given outcome.
    fn advance(&mut self, outcome: ApOutcome)
        requires
            old(self).wf(),
            !(old(self).state is Finished),
        ensures
            final(self).wf(),
            old(self).advanced_to(final(self), outcome),
    {
        self.outcomes.push(outcome);
        self.state =
        if self.outcomes.len() < self.targets.len() {
            RunState::NeedsResources
        } else {
            RunState::Finished
        };
    }

    /// The processor that needs memory now.
    pub fn current(&self) -> (target: ApTarget)
        requires
            self.wf(),
            !(self.state is Finished),
        ensures
            target == self.at(),
    {
        self.targets[self.outcomes.len()]
    }

    /// Goes on with memory for the current processor: it is to be launched.
    pub fn resources_ready(&mut self, res: &ApResources) -> (launch: ApLaunch)
        requires
            old(self).wf(),
            old(self).state is NeedsResources,
            launch_fits(*res),
        ensures
            final(self).wf(),
            old(self).moved_to(final(self), RunState::Launching),
            launch == launch_of(old(self).at(), *res),
    {
        let target = self.current();
        self.state = RunState::Launching;
        prepare_launch(&target, res)
    }

    /// Goes on with the answer of the firmware: a started processor is waited
    /// for, any other is left.
    pub fn cpu_on_returned(&mut self, result: i64)
        requires
            old(self).wf(),
            old(self).state is Launching,
        ensures
            final(self).wf(),
            result == 0 ==> old(self).moved_to(final(self), RunState::Waiting(READY_POLLS)),
            result == 0 ==> final(self).state == RunState::Waiting(10_000_000),
            result != 0 ==> old(self).advanced_to(final(self), ApOutcome::Failed(result)),
    {
        if result == 0 {
            self.state = RunState::Waiting(READY_POLLS);
        } else {
            self.advance(ApOutcome::Failed(result));
        }
    }

    /// Goes on with a look at the ready flag: the wait ends when the flag is set
    /// or no look is left, and counts as too long if none was left.
    pub fn ready_polled(&mut self, ready: bool)
        requires
            old(self).wf(),
            old(self).state is Waiting,
        ensures
            final(self).wf(),
            old(self).state matches RunState::Waiting(left) ==> {
                &&& left == 0 ==> old(self).advanced_to(final(self), ApOutcome::TimedOut)
                &&& left > 0 && ready ==> old(self).advanced_to(final(self), ApOutcome::Ready)
                &&& left > 0 && !ready ==> old(self).moved_to(
                    final(self),
                    RunState::Waiting((left - 1) as u32),
                )
            },
    {
        if let RunState::Waiting(left) = self.state {
            if left == 0 {
                self.advance(ApOutcome::TimedOut);
            } else if ready {
                self.advance(ApOutcome::Ready);
            } else {
                self.state = RunState::Waiting(left - 1);
            }
        }
    }

    /// The number of processors that count as started so far.
    pub open spec fn counted(&self) -> nat {
        self.outcomes@.filter(|outcome: ApOutcome| is_counted(self.counting, outcome)).len()
    }

    /// Counts the processors that count as started so far.
    pub fn ap_count(&self) -> (count: usize)
        ensures
            count == self.counted(),
    {
        let ghost pred = |outcome: ApOutcome| is_counted(self.counting, outcome);
        let mut count: usize = 0;
        let mut i: usize = 0;
        proof {
            reveal(Seq::filter);
        }
        while i < self.outcomes.len()
            invariant
                i <= self.outcomes@.len(),
                pred == (|outcome: ApOutcome| is_counted(self.counting, outcome)),
                count == self.outcomes@.take(i as int).filter(pred).len(),
                count <= i,
            decreases self.outcomes@.len() - i,
        {
            proof {
                reveal(Seq::filter);
                assert(self.outcomes@.take(i + 1).drop_last() =~= self.outcomes@.take(i as int));
            }
            let counted: bool = match self.counting {
                Counting::Tried => true,
                Counting::Started => match self.outcomes[i] {
                    ApOutcome::Failed(_) => false,
                    _ => true,
                },
            };
            if counted {
                count = count + 1;
            }
            i = i + 1;
        }
        assert(self.outcomes@.take(self.outcomes@.len() as int) =~= self.outcomes@);
        count
    }
}

/// Sets out to start the processors with these CPU interfaces, except the boot
/// processor, whose `MPIDR_EL1` is given, and the disabled ones.
pub fn start_secondary_cpus(giccs: &[MadtGicc], bsp_mpidr: u64) -> (run: SecondaryBoot)
    ensures
        run.wf(),
        run.targets@ == madt_targets(giccs@, bsp_mpidr & AFFINITY_MASK),
        forall|j: int|
            0 <= j < giccs@.len() && #[trigger] giccs@[j].mpidr & 0xFF_00FF_FFFF != bsp_mpidr
                & 0xFF_00FF_FFFF && giccs@[j].flags & 1 != 0 ==> exists|i: int|
                0 <= i < run.targets@.len() && (#[trigger] run.targets@[i]).mpidr
                    == giccs@[j].mpidr & 0xFF_00FF_FFFF,
        run.outcomes@ == Seq::<ApOutcome>::empty(),
        run.counting is Tried,
        run.state == state_after(0, run.targets@.len()),
{
    let bsp: u64 = affinity(bsp_mpidr);
    let ghost pred = |gicc: MadtGicc| to_be_started(gicc, bsp);
    let mut targets: Vec<ApTarget> = Vec::new();
    let mut i: usize = 0;
    proof {
        reveal(Seq::filter);
        assert(targets@ =~= madt_targets(giccs@.take(0), bsp));
    }
    while i < giccs.len()
        invariant
            i <= giccs@.len(),
            pred == (|gicc: MadtGicc| to_be_started(gicc, bsp)),
            targets@ == madt_targets(giccs@.take(i as int), bsp),
            targets@.len() <= i,
        decreases giccs@.len() - i,
    {
        proof {
            reveal(Seq::filter);
            assert(giccs@.take(i + 1).drop_last() =~= giccs@.take(i as int));
        }
        let gicc: MadtGicc = giccs[i];
        let mpidr: u64 = affinity(gicc.mpidr);
        if mpidr != bsp && gicc.flags & 1 != 0 {
            targets.push(ApTarget { mpidr, cpu_id: targets.len() as u64 + 1 });
        }
        i = i + 1;
        assert(targets@ =~= madt_targets(giccs@.take(i as int), bsp));
    }
    assert(giccs@.take(giccs@.len() as int) =~= giccs@);
    proof {
        let places = lemma_every_enabled_processor_is_started(giccs@, bsp);
        assert forall|j: int|
            0 <= j < giccs@.len() && #[trigger] giccs@[j].mpidr & 0xFF_00FF_FFFF != bsp_mpidr
                & 0xFF_00FF_FFFF && giccs@[j].flags & 1 != 0 implies exists|i: int|
            0 <= i < targets@.len() && (#[trigger] targets@[i]).mpidr == giccs@[j].mpidr
                & 0xFF_00FF_FFFF by {
            assert(places.contains(j));
            let i = choose|i: int| 0 <= i < places.len() && places[i] == j;
            assert(targets@[i].mpidr == giccs@[places[i]].mpidr & 0xFF_00FF_FFFF);
        }
    }
    SecondaryBoot::begin(targets, Counting::Tried)
}

/// Sets out to start all of `total_cpus` processors but the boot processor,
/// whose `MPIDR_EL1` is given.
pub fn start_secondary_cpus_from_dtb(total_cpus: usize, bsp_mpidr: u64) -> (run: SecondaryBoot)
    ensures
        run.wf(),
        total_cpus <= 1 ==> run.targets@ == Seq::<ApTarget>::empty(),
        total_cpus > 1 ==> run.targets@ == dtb_targets(
            total_cpus as nat,
            bsp_mpidr & AFFINITY_MASK,
        ),
        run.outcomes@ == Seq::<ApOutcome>::empty(),
        run.counting is Started,
        run.state == state_after(0, run.targets@.len()),
{
    let mut targets: Vec<ApTarget> = Vec::new();
    if total_cpus <= 1 {
        return SecondaryBoot::begin(targets, Counting::Started);
    }
    let bsp: u64 = affinity(bsp_mpidr);
    let mut i: usize = 0;
    while i < total_cpus
        invariant
            i <= total_cpus,
            targets@ == dtb_targets(i as nat, bsp),
        decreases total_cpus - i,
    {
        let mpidr: u64 = i as u64;
        if mpidr != bsp {
            targets.push(ApTarget { mpidr, cpu_id: mpidr });
        }
        i = i + 1;
    }
    SecondaryBoot::begin(targets, Counting::Started)
}

/// The boot processor is never among those that the CPU interfaces lead to, nor
/// is a disabled one; the others are numbered from one without a gap.
pub proof fn lemma_madt_targets(giccs: Seq<MadtGicc>, bsp: u64, i: int)
    requires
        0 <= i < madt_targets(giccs, bsp).len(),
    ensures
        madt_targets(giccs, bsp)[i].mpidr != bsp,
        madt_targets(giccs, bsp)[i].cpu_id == (i + 1) as u64,
        exists|j: int|
            0 <= j < giccs.len() && gicc_affinity(#[trigger] giccs[j]) == madt_targets(
                giccs,
                bsp,
            )[i].mpidr && giccs[j].flags & 1 != 0,
{
    let pred = |gicc: MadtGicc| to_be_started(gicc, bsp);
    let kept = giccs.filter(pred)[i];
    giccs.lemma_filter_pred(pred, i);
    assert(giccs.filter(pred).contains(kept));
    giccs.lemma_filter_contains_rev(pred, kept);
    let j = choose|j: int| 0 <= j < giccs.len() && giccs[j] == kept;
    assert(gicc_affinity(giccs[j]) == madt_targets(giccs, bsp)[i].mpidr);
}

/// Without CPU interfaces to go by, every affinity below the number of
/// processors is started exactly once, except that of the boot processor.
pub proof fn lemma_dtb_targets(total: nat, bsp: u64)
    requires
        total <= u64::MAX,
    ensures
        forall|i: int|
            0 <= i < dtb_targets(total, bsp).len() ==> {
                let target = #[trigger] dtb_targets(total, bsp)[i];
                &&& target.mpidr < total
                &&& target.mpidr != bsp
                &&& target.cpu_id == target.mpidr
            },
        forall|i: int, j: int|
            0 <= i < j < dtb_targets(total, bsp).len() ==> (#[trigger] dtb_targets(
                total,
                bsp,
            )[i]).mpidr < (#[trigger] dtb_targets(total, bsp)[j]).mpidr,
        forall|mpidr: u64|
            mpidr < total && mpidr != bsp ==> #[trigger] dtb_targets(total, bsp).contains(
                (ApTarget { mpidr, cpu_id: mpidr }),
            ),
    decreases total,
{
    if total > 0 {
        let before = dtb_targets((total - 1) as nat, bsp);
        lemma_dtb_targets((total - 1) as nat, bsp);
        assert forall|mpidr: u64| mpidr < total && mpidr != bsp implies #[trigger] dtb_targets(
            total,
            bsp,
        ).contains((ApTarget { mpidr, cpu_id: mpidr })) by {
            let wanted = ApTarget { mpidr, cpu_id: mpidr };
            if mpidr < total - 1 {
                assert(before.contains(wanted));
                let k = choose|k: int| 0 <= k < before.len() && before[k] == wanted;
                assert(dtb_targets(total, bsp)[k] == wanted);
            } else {
                assert(dtb_targets(total, bsp).last() == wanted);
            }
        }
    }
}

/// `after` is the run `before` behind one event: memory was found, the firmware
/// answered, or the ready flag was looked at.
pub open spec fn follows(before: SecondaryBoot, after: SecondaryBoot) -> bool {
    match before.state {
        RunState::NeedsResources => before.moved_to(&after, RunState::Launching),
        RunState::Launching => {
            ||| before.moved_to(&after, RunState::Waiting(READY_POLLS))
            ||| exists|code: i64| #[trigger] before.advanced_to(&after, ApOutcome::Failed(code))
        },
        RunState::Waiting(left) => {
            ||| before.advanced_to(&after, ApOutcome::TimedOut)
            ||| before.advanced_to(&after, ApOutcome::Ready)
            ||| left > 0 && before.moved_to(&after, RunState::Waiting((left - 1) as u32))
        },
        RunState::Finished => false,
    }
}

/// A number that every event brings down.
pub open spec fn events_left(run: SecondaryBoot) -> int {
    let behind = (run.targets@.len() - run.outcomes@.len() - 1) * (READY_POLLS + 3);
    match run.state {
        RunState::NeedsResources => behind + READY_POLLS + 3,
        RunState::Launching => behind + READY_POLLS + 2,
        RunState::Waiting(left) => behind + left + 1,
        RunState::Finished => 0,
    }
}

/// A run comes to its end: every event brings it nearer.
pub proof fn lemma_run_ends(before: SecondaryBoot, after: SecondaryBoot)
    requires
        before.wf(),
        after.wf(),
        follows(before, after),
    ensures
        0 <= events_left(after) < events_left(before),
{
}

/// A finished run has an outcome for every processor that it set out to start,
/// and counts all of them, or all that the firmware started.
pub proof fn lemma_finished_run(run: SecondaryBoot)
    requires
        run.wf(),
        run.state is Finished,
    ensures
        run.outcomes@.len() == run.targets@.len(),
        run.counting is Tried ==> run.counted() == run.targets@.len(),
        run.counting is Started && (forall|i: int|
            0 <= i < run.outcomes@.len() ==> !(#[trigger] run.outcomes@[i] is Failed))
            ==> run.counted() == run.targets@.len(),
{
    let pred = |outcome: ApOutcome| is_counted(run.counting, outcome);
    if forall|i: int| 0 <= i < run.outcomes@.len() ==> pred(#[trigger] run.outcomes@[i]) {
        lemma_filter_keeps_all(run.outcomes@, pred);
    }
}

/// A filter that every item satisfies keeps all of them.
proof fn lemma_filter_keeps_all(outcomes: Seq<ApOutcome>, pred: spec_fn(ApOutcome) -> bool)
    requires
        forall|i: int| 0 <= i < outcomes.len() ==> pred(#[trigger] outcomes[i]),
    ensures
        outcomes.filter(pred).len() == outcomes.len(),
    decreases outcomes.len(),
{
    reveal(Seq::filter);
    if outcomes.len() > 0 {
        assert(pred(outcomes[outcomes.len() - 1]));
        lemma_filter_keeps_all(outcomes.drop_last(), pred);
    }
}

/// One CPU interface more is one processor more to start, behind the others and
/// with the next number, exactly if its affinity is not that of the boot processor
/// and the lowest of its flags is set. Nothing else of it matters, and no interface
/// means no processor.
pub proof fn lemma_one_interface_more(giccs: Seq<MadtGicc>, gicc: MadtGicc, bsp: u64)
    requires
        giccs.len() < u64::MAX,
    ensures
        madt_targets(Seq::empty(), bsp) == Seq::<ApTarget>::empty(),
        gicc.mpidr & 0xFF_00FF_FFFF != bsp && gicc.flags & 1 != 0 ==> ({
            let before = madt_targets(giccs, bsp);
            let after = madt_targets(giccs.push(gicc), bsp);
            &&& after.len() == before.len() + 1
            &&& after.drop_last() == before
            &&& after.last().mpidr == gicc.mpidr & 0xFF_00FF_FFFF
            &&& after.last().cpu_id == after.len()
        }),
        gicc.mpidr & 0xFF_00FF_FFFF == bsp || gicc.flags & 1 == 0 ==> madt_targets(
            giccs.push(gicc),
            bsp,
        ) == madt_targets(giccs, bsp),
{
    reveal(Seq::filter);
    assert(giccs.push(gicc).drop_last() =~= giccs);
    giccs.lemma_filter_len(|gicc: MadtGicc| to_be_started(gicc, bsp));
    assert(madt_targets(Seq::empty(), bsp) =~= Seq::<ApTarget>::empty());
    if gicc.mpidr & 0xFF_00FF_FFFF != bsp && gicc.flags & 1 != 0 {
        assert(madt_targets(giccs.push(gicc), bsp).drop_last() =~= madt_targets(giccs, bsp));
    } else {
        assert(madt_targets(giccs.push(gicc), bsp) =~= madt_targets(giccs, bsp));
    }
}

/// The processors to start are those of all CPU interfaces whose affinity is not
/// that of the boot processor and whose lowest flag is set: the `i`-th stands for
/// the interface at the `i`-th of the places that are handed back, these go up, and
/// no such interface is at any other place.
pub proof fn lemma_every_enabled_processor_is_started(giccs: Seq<MadtGicc>, bsp: u64) -> (places:
    Seq<int>)
    requires
        giccs.len() <= u64::MAX,
    ensures
        places.len() == madt_targets(giccs, bsp).len(),
        forall|i: int, j: int| 0 <= i < j < places.len() ==> places[i] < places[j],
        forall|i: int|
            0 <= i < places.len() ==> {
                &&& 0 <= #[trigger] places[i] < giccs.len()
                &&& giccs[places[i]].mpidr & 0xFF_00FF_FFFF != bsp
                &&& giccs[places[i]].flags & 1 != 0
                &&& madt_targets(giccs, bsp)[i].mpidr == giccs[places[i]].mpidr & 0xFF_00FF_FFFF
                &&& madt_targets(giccs, bsp)[i].cpu_id == i + 1
            },
        forall|j: int|
            0 <= j < giccs.len() && #[trigger] giccs[j].mpidr & 0xFF_00FF_FFFF != bsp
                && giccs[j].flags & 1 != 0 ==> places.contains(j),
    decreases giccs.len(),
{
    if giccs.len() == 0 {
        reveal(Seq::filter);
        Seq::empty()
    } else {
        let last = giccs.len() - 1;
        let before = giccs.drop_last();
        let at = lemma_every_enabled_processor_is_started(before, bsp);
        assert(before.push(giccs[last]) =~= giccs);
        lemma_one_interface_more(before, giccs[last], bsp);
        let was = madt_targets(before, bsp);
        let now = madt_targets(giccs, bsp);
        let found = giccs[last].mpidr & 0xFF_00FF_FFFF != bsp && giccs[last].flags & 1 != 0;
        assert forall|i: int| 0 <= i < was.len() implies #[trigger] now[i] == was[i] by {
            if found {
                assert(now.drop_last()[i] == now[i]);
            }
        }
        let places = if found {
            at.push(last)
        } else {
            at
        };
        assert forall|j: int|
            0 <= j < giccs.len() && #[trigger] giccs[j].mpidr & 0xFF_00FF_FFFF != bsp
                && giccs[j].flags & 1 != 0 implies places.contains(j) by {
            if j < last {
                assert(before[j].mpidr & 0xFF_00FF_FFFF != bsp);
                assert(at.contains(j));
                let k = choose|k: int| 0 <= k < at.len() && at[k] == j;
                assert(places[k] == j);
            } else {
                assert(places.last() == j);
            }
        }
        places
    }
}

/// What a launch tells the processor and the firmware: the stack has sixty-four
/// kibibytes and lies where its memory is mapped, and so do the arguments; the
/// entry point is as far into the image in memory as in the address space; the rest
/// is handed on.
pub proof fn lemma_what_a_launch_holds(target: ApTarget, res: ApResources)
    requires
        launch_fits(res),
    ensures
        ({
            let launch = launch_of(target, res);
            &&& launch.args_virt - 0xFFFF_8000_0000_0000 == res.args_base
            &&& launch.args_phys == res.args_base
            &&& launch.args.stack_start - 0xFFFF_8000_0000_0000 == res.stack_base
            &&& launch.args.stack_end - launch.args.stack_start == 65536
            &&& launch.entry_point_phys - res.kernel_phys_base == res.entry_point_virt
                - 0xFFFF_FF00_0000_0000
            &&& launch.args.cpu_id == target.cpu_id
            &&& launch.mpidr == target.mpidr
            &&& launch.function_id == 0xC400_0003
            &&& launch.args.page_table == res.page_table
            &&& launch.args.kernel_phys_base == res.kernel_phys_base
            &&& launch.idmap_pg_dir == res.idmap_pg_dir
            &&& launch.tcr_el1 == res.tcr_el1
            &&& launch.mair_el1 == res.mair_el1
        }),
{
}

/// A launch can be put together if the stack, the arguments and the entry point
/// have addresses.
pub proof fn lemma_when_a_launch_fits(res: ApResources)
    requires
        res.args_base < 0x8000_0000_0000,
        res.stack_base < 0x7FFF_FFFF_0000,
        res.entry_point_virt >= 0xFFFF_FF00_0000_0000,
        res.kernel_phys_base < 0xFFFF_FF00_0000_0000,
    ensures
        launch_fits(res),
{
}

/// A run that leaves a processor has its outcome behind the earlier ones, is at the
/// next processor if there is one and finished otherwise, and counts one more
/// exactly if it counts every one or the firmware started this one.
pub proof fn lemma_what_leaving_a_processor_does(
    before: SecondaryBoot,
    after: SecondaryBoot,
    outcome: ApOutcome,
)
    requires
        before.wf(),
        !(before.state is Finished),
        before.advanced_to(&after, outcome),
    ensures
        after.wf(),
        after.targets@ == before.targets@,
        after.counting == before.counting,
        after.outcomes@.len() == before.outcomes@.len() + 1,
        after.outcomes@.last() == outcome,
        after.outcomes@.drop_last() == before.outcomes@,
        after.state is Finished <==> after.outcomes@.len() == after.targets@.len(),
        after.state is NeedsResources <==> after.outcomes@.len() < after.targets@.len(),
        before.counting == Counting::Tried || outcome == ApOutcome::Ready || outcome
            == ApOutcome::TimedOut ==> after.counted() == before.counted() + 1,
        before.counting == Counting::Started && outcome is Failed ==> after.counted()
            == before.counted(),
{
    reveal(Seq::filter);
    assert(after.outcomes@.drop_last() =~= before.outcomes@);
}

/// A run that has tried nothing counts nothing, and is finished at once only if
/// there is nothing to try. It is at the first processor otherwise.
pub proof fn lemma_where_a_run_begins(run: SecondaryBoot)
    requires
        run.outcomes@ == Seq::<ApOutcome>::empty(),
        run.state == state_after(0, run.targets@.len()),
    ensures
        run.counted() == 0,
        run.targets@.len() == 0 ==> run.state == RunState::Finished,
        run.targets@.len() > 0 ==> run.state == RunState::NeedsResources && run.at()
            == run.targets@[0],
        run.wf(),
{
    reveal(Seq::filter);
}

/// A run that stays at a processor changes in its state alone.
pub proof fn lemma_what_staying_does(before: SecondaryBoot, after: SecondaryBoot, state: RunState)
    requires
        before.moved_to(&after, state),
    ensures
        after.targets@ == before.targets@,
        after.outcomes@ == before.outcomes@,
        after.counting == before.counting,
        after.state == state,
        after.at() == before.at(),
        after.counted() == before.counted(),
{
}

/// The processor that a run is at is the first that has no outcome.
pub proof fn lemma_which_processor_is_next(run: SecondaryBoot)
    requires
        run.wf(),
        !(run.state is Finished),
    ensures
        run.outcomes@.len() < run.targets@.len(),
        run.at() == run.targets@[run.outcomes@.len() as int],
{
}

} // verus!
