//! Taking turns: a round goes through the contexts in the order of their
//! handles and stops at the first that can run here.

use crate::context::{Context, ContextRef, Status};
use crate::counter;
use crate::cpu_set::LogicalCpuId;
use crate::percpu::{CpuState, CpuStats, PercpuBlock};
use vstd::prelude::*;

verus! {

/// Ticks after which a context has to give way.
pub const TICKS_PER_SWITCH: usize = 3;

/// Whether a context can be switched to.
#[derive(Clone, Copy, Debug, PartialEq, Eq, Structural)]
pub enum UpdateResult {
    /// It can.
    CanSwitch,
    /// It is to be passed over.
    Skip,
}

/// What came of a round.
#[derive(Clone, Copy, Debug, PartialEq, Eq, Structural)]
pub enum SwitchResult {
    /// Another context was switched to.
    Switched,
    /// No other context can run here.
    AllContextsIdle,
    /// The current context may not be interrupted: no other was looked at.
    NotPreemptable,
}

/// What a tick asks for.
#[derive(Clone, Copy, Debug, PartialEq, Eq, Structural)]
pub enum TickAction {
    /// Nothing.
    Continue,
    /// A context switch, and signals to be handled behind it.
    SwitchThenSignals,
}

/// What is left to be done to finish a switch.
#[derive(Clone, Copy, Debug, PartialEq, Eq, Structural)]
pub enum FinishAction {
    /// Run the hook of the architecture, and then go on in the new context with
    /// interrupts enabled.
    ArchHookThenInterrupts {
        /// The contexts that are no longer held.
        released: SwitchResultInner,
    },
    /// Reset the machine: there was no switch to finish.
    EmergencyReset,
}

/// The two contexts of a switch.
#[derive(Clone, Copy, Debug, PartialEq, Eq, Structural)]
pub struct SwitchResultInner {
    /// The context that is left.
    pub prev: ContextRef,
    /// The context that is entered.
    pub next: ContextRef,
}

/// A round, and what it asks of the rest of the kernel.
#[derive(Clone, Copy, Debug, PartialEq, Eq, Structural)]
pub struct SwitchOutcome {
    /// What came of it.
    pub result: SwitchResult,
    /// The contexts to leave and to enter.
    pub switch_to: Option<SwitchResultInner>,
    /// Milliseconds to add to the time of the processor.
    pub add_time_ms: Option<u64>,
    /// What the processor is doing from now on.
    pub set_state: Option<CpuState>,
}

/// What a processor needs to switch contexts.
#[derive(Clone, Copy, Debug, PartialEq, Eq, Structural)]
pub struct ContextSwitchPercpu {
    /// The switch that is under way. Both its contexts are held.
    pub switch_result: Option<SwitchResultInner>,
    /// When the last round was, in nanoseconds.
    pub switch_time: u128,
    /// Ticks since then.
    pub pit_ticks: usize,
    /// The context that it is at.
    pub current_ctxt: Option<ContextRef>,
    /// The context that it is at when there is no work.
    pub idle_ctxt: Option<ContextRef>,
    /// The context that it is at is being killed.
    pub being_sigkilled: bool,
}

impl ContextSwitchPercpu {
    /// The state of a processor that has not run a context yet.
    pub open spec fn is_fresh(&self) -> bool {
        *self == ContextSwitchPercpu {
            switch_result: None,
            switch_time: 0,
            pit_ticks: 0,
            current_ctxt: None,
            idle_ctxt: None,
            being_sigkilled: false,
        }
    }

    /// The state of a processor that has not run a context yet.
    pub fn default() -> (internals: Self)
        ensures
            internals.is_fresh(),
    {
        ContextSwitchPercpu {
            switch_result: None,
            switch_time: 0,
            pit_ticks: 0,
            current_ctxt: None,
            idle_ctxt: None,
            being_sigkilled: false,
        }
    }

    /// Applies a function to the current context.
    pub fn with_context<T, F: FnOnce(&ContextRef) -> T>(&self, f: F) -> (out: T)
        requires
            self.current_ctxt matches Some(current) && call_requires(f, (&current,)),
        ensures
            self.current_ctxt matches Some(current) && call_ensures(f, (&current,), out),
    {
        f(self.current_ctxt.as_ref().unwrap())
    }

    /// Applies a function to the current context, if there is one.
    pub fn try_with_context<T, F: FnOnce(Option<&ContextRef>) -> T>(&self, f: F) -> (out: T)
        requires
            self.current_ctxt matches Some(current) ==> call_requires(f, (Some(&current),)),
            self.current_ctxt is None ==> call_requires(f, (None,)),
        ensures
            self.current_ctxt matches Some(current) ==> call_ensures(f, (Some(&current),), out),
            self.current_ctxt is None ==> call_ensures(f, (None,), out),
    {
        match &self.current_ctxt {
            Some(current) => f(Some(current)),
            None => f(None),
        }
    }

    /// Sets the current context.
    pub fn set_current_context(&mut self, new: ContextRef)
        ensures
            *final(self) == (ContextSwitchPercpu { current_ctxt: Some(new), ..*old(self) }),
    {
        self.current_ctxt = Some(new);
    }

    /// Sets the idle context.
    pub fn set_idle_context(&mut self, new: ContextRef)
        ensures
            *final(self) == (ContextSwitchPercpu { idle_ctxt: Some(new), ..*old(self) }),
    {
        self.idle_ctxt = Some(new);
    }

    /// The idle context.
    pub fn idle_context(&self) -> (idle: ContextRef)
        requires
            self.idle_ctxt is Some,
        ensures
            self.idle_ctxt == Some(idle),
    {
        self.idle_ctxt.unwrap()
    }
}

/// The context waits for a time that has come.
pub open spec fn is_due(context: Context, now: u128) -> bool {
    context.status is Blocked && (context.wake matches Some(wake) && now >= wake)
}

/// The context can be switched to on a processor at a time: no processor is at
/// it, this one may take it, and it is runnable or due.
pub open spec fn is_eligible(context: Context, cpu: LogicalCpuId, now: u128) -> bool {
    &&& !context.running
    &&& context.sched_affinity@.contains(cpu@)
    &&& context.status is Runnable || is_due(context, now)
}

/// The context after it was looked at: awake if it was due.
pub open spec fn looked_at(context: Context, cpu: LogicalCpuId, now: u128) -> Context {
    if is_eligible(context, cpu, now) && is_due(context, now) {
        Context { wake: None, status: Status::Runnable, ..context }
    } else {
        context
    }
}

/// Decides whether a context can be switched to, and wakes it if its time has
/// come.
pub fn update_runnable(context: &mut Context, cpu_id: LogicalCpuId, now: u128) -> (result:
    UpdateResult)
    ensures
        result is CanSwitch <==> is_eligible(*old(context), cpu_id, now),
        *final(context) == looked_at(*old(context), cpu_id, now),
        result is CanSwitch <==> {
            &&& !old(context).running
            &&& old(context).sched_affinity@.contains(cpu_id@)
            &&& {
                ||| old(context).status == Status::Runnable
                ||| old(context).status == Status::Blocked && (old(context).wake matches Some(wake)
                    && wake <= now)
            }
        },
        result is CanSwitch ==> *final(context) == (Context {
            status: Status::Runnable,
            wake: if old(context).status == Status::Blocked {
                None
            } else {
                old(context).wake
            },
            ..*old(context)
        }),
        result is Skip ==> *final(context) == *old(context),
{
    if context.running {
        return UpdateResult::Skip;
    }
    if !context.sched_affinity.contains(cpu_id) {
        return UpdateResult::Skip;
    }
    if context.status == Status::Blocked {
        if let Some(wake) = context.wake {
            if now >= wake {
                context.wake = None;
                context.unblock_no_ipi();
            }
        }
    }
    if context.status == Status::Runnable {
        UpdateResult::CanSwitch
    } else {
        UpdateResult::Skip
    }
}

/// The block of a processor behind a tick.
pub open spec fn ticked(percpu: PercpuBlock) -> PercpuBlock {
    PercpuBlock {
        switch_internals: ContextSwitchPercpu {
            pit_ticks: (percpu.switch_internals.pit_ticks + 1) as usize,
            ..percpu.switch_internals
        },
        ..percpu
    }
}

/// The block of a processor asks for a context switch.
pub open spec fn is_turn_over(percpu: PercpuBlock) -> bool {
    percpu.switch_internals.pit_ticks >= TICKS_PER_SWITCH
}

/// Counts a tick; the third since the last round asks for a context switch, and
/// so does every one behind it.
pub fn tick(percpu: &mut PercpuBlock) -> (action: TickAction)
    requires
        old(percpu).switch_internals.pit_ticks < usize::MAX,
    ensures
        *final(percpu) == ticked(*old(percpu)),
        action is SwitchThenSignals <==> is_turn_over(ticked(*old(percpu))),
        action is SwitchThenSignals <==> old(percpu).switch_internals.pit_ticks + 1 >= 3,
{
    let new_ticks: usize = percpu.switch_internals.pit_ticks + 1;
    percpu.switch_internals.pit_ticks = new_ticks;
    if new_ticks >= TICKS_PER_SWITCH {
        TickAction::SwitchThenSignals
    } else {
        TickAction::Continue
    }
}

/// The contexts stand in the order of their handles, and none occurs twice.
pub open spec fn in_order(contexts: Seq<Context>) -> bool {
    forall|i: int, j: int|
        0 <= i < j < contexts.len() ==> (#[trigger] contexts[i]).handle.id < (
        #[trigger] contexts[j]).handle.id
}

/// The context at `at` has the given handle.
pub open spec fn is_at(contexts: Seq<Context>, handle: ContextRef, at: int) -> bool {
    0 <= at < contexts.len() && contexts[at].handle == handle
}

/// One of the contexts has the given handle.
pub open spec fn is_among(contexts: Seq<Context>, handle: ContextRef) -> bool {
    exists|at: int| is_at(contexts, handle, at)
}

/// The place of a context.
pub open spec fn place_of(contexts: Seq<Context>, handle: ContextRef) -> int {
    choose|at: int| is_at(contexts, handle, at)
}

/// The `k`-th place of a round that starts behind `from`.
pub open spec fn round_place(from: int, len: int, k: int) -> int {
    if from + 1 + k < len {
        from + 1 + k
    } else {
        from + 1 + k - len
    }
}

/// The context at the `k`-th place of a round is to be taken: it is not the idle
/// one, and can be switched to.
pub open spec fn takes_at(
    contexts: Seq<Context>,
    from: int,
    idle: ContextRef,
    cpu: LogicalCpuId,
    clock: Seq<u128>,
    k: int,
) -> bool {
    let context = contexts[round_place(from, contexts.len() as int, k)];
    context.handle != idle && is_eligible(context, cpu, clock[k])
}

/// The place of the first context to be taken from the `k`-th place of a round
/// on.
pub open spec fn first_taken(
    contexts: Seq<Context>,
    from: int,
    idle: ContextRef,
    cpu: LogicalCpuId,
    clock: Seq<u128>,
    k: int,
) -> Option<int>
    decreases contexts.len() - k,
{
    if k >= contexts.len() - 1 {
        None
    } else if takes_at(contexts, from, idle, cpu, clock, k) {
        Some(round_place(from, contexts.len() as int, k))
    } else {
        first_taken(contexts, from, idle, cpu, clock, k + 1)
    }
}

/// Where a round ends that starts behind the context at `from`: at the first
/// other context that can be switched to, at the idle one if there is no such
/// and it can, or nowhere. `clock` holds the time of each look: at the places of
/// the round, and last at the idle context.
pub open spec fn round_end(
    contexts: Seq<Context>,
    from: int,
    idle: ContextRef,
    cpu: LogicalCpuId,
    clock: Seq<u128>,
) -> Option<int> {
    match first_taken(contexts, from, idle, cpu, clock, 0) {
        Some(place) => Some(place),
        None => if is_among(contexts, idle) && place_of(contexts, idle) != from && is_eligible(
            contexts[place_of(contexts, idle)],
            cpu,
            clock[contexts.len() - 1],
        ) {
            Some(place_of(contexts, idle))
        } else {
            None
        },
    }
}

/// A context has one place.
proof fn lemma_one_place(contexts: Seq<Context>, handle: ContextRef, at: int)
    requires
        in_order(contexts),
        is_at(contexts, handle, at),
    ensures
        is_among(contexts, handle),
        place_of(contexts, handle) == at,
{
    let other = place_of(contexts, handle);
    assert(is_at(contexts, handle, other));
    if other < at {
        assert(contexts[other].handle.id < contexts[at].handle.id);
    } else if at < other {
        assert(contexts[at].handle.id < contexts[other].handle.id);
    }
}

/// Every place but the one that a round starts behind comes up in it.
proof fn lemma_round_reaches(from: int, len: int, place: int) -> (k: int)
    requires
        0 <= from < len,
        0 <= place < len,
        place != from,
    ensures
        0 <= k < len - 1,
        round_place(from, len, k) == place,
{
    if place > from {
        place - from - 1
    } else {
        place - from - 1 + len
    }
}

/// Finds the place of a context.
fn find_place(contexts: &Vec<Context>, handle: ContextRef) -> (place: Option<usize>)
    requires
        in_order(contexts@),
    ensures
        place is Some <==> is_among(contexts@, handle),
        place matches Some(at) ==> is_at(contexts@, handle, at as int) && at == place_of(
            contexts@,
            handle,
        ),
{
    let mut i: usize = 0;
    while i < contexts.len()
        invariant
            i <= contexts@.len(),
            in_order(contexts@),
            forall|j: int| 0 <= j < i ==> (#[trigger] contexts@[j]).handle != handle,
        decreases contexts@.len() - i,
    {
        if contexts[i].handle == handle {
            proof {
                lemma_one_place(contexts@, handle, i as int);
            }
            return Some(i);
        }
        i = i + 1;
    }
    None
}

/// The context as it is entered: awake.
pub open spec fn awake(context: Context) -> Context {
    if context.status is Blocked {
        Context { wake: None, status: Status::Runnable, ..context }
    } else {
        context
    }
}

/// Goes round the contexts, starting behind the one at `from`, and wakes the one
/// that it stops at.
fn select_next(
    contexts: &mut Vec<Context>,
    from: usize,
    idle: ContextRef,
    cpu_id: LogicalCpuId,
    clock: &[u128],
) -> (next: Option<usize>)
    requires
        in_order(old(contexts)@),
        from < old(contexts)@.len() <= clock@.len(),
    ensures
        next matches Some(place) ==> {
            &&& round_end(old(contexts)@, from as int, idle, cpu_id, clock@) == Some(place as int)
            &&& place < old(contexts)@.len()
            &&& place != from
            &&& final(contexts)@ == old(contexts)@.update(
                place as int,
                awake(old(contexts)@[place as int]),
            )
        },
        next is None ==> {
            &&& round_end(old(contexts)@, from as int, idle, cpu_id, clock@) is None
            &&& final(contexts)@ == old(contexts)@
        },
{
    let ghost before = contexts@;
    let ghost len = before.len() as int;
    let count: usize = contexts.len();
    let mut skip_idle: bool = true;
    let mut place: usize = from;
    let mut k: usize = 0;
    while k < count - 1
        invariant
            contexts@ == before,
            before == old(contexts)@,
            in_order(before),
            len == before.len() == count,
            from < count <= clock@.len(),
            k <= count - 1,
            place == round_place(from as int, len, k - 1),
            first_taken(before, from as int, idle, cpu_id, clock@, k as int) == first_taken(
                before,
                from as int,
                idle,
                cpu_id,
                clock@,
                0,
            ),
            skip_idle <==> forall|j: int|
                0 <= j < k ==> before[#[trigger] round_place(from as int, len, j)].handle != idle,
        decreases count - 1 - k,
    {
        place =
        if place + 1 < count {
            place + 1
        } else {
            0
        };
        assert(place == round_place(from as int, len, k as int));
        if contexts[place].handle == idle && skip_idle {
            skip_idle = false;
        } else {
            proof {
                if contexts@[place as int].handle == idle {
                    let j = choose|j: int|
                        0 <= j < k && before[#[trigger] round_place(from as int, len, j)].handle
                            == idle;
                    let other = round_place(from as int, len, j);
                    assert(other != place);
                    lemma_one_place(before, idle, place as int);
                    lemma_one_place(before, idle, other);
                }
            }
            let result = update_runnable(&mut contexts[place], cpu_id, clock[k]);
            match result {
                UpdateResult::CanSwitch => {
                    assert(takes_at(before, from as int, idle, cpu_id, clock@, k as int));
                    assert(contexts@ =~= before.update(
                        place as int,
                        awake(before[place as int]),
                    ));
                    return Some(place);
                },
                UpdateResult::Skip => {
                    assert(contexts@ =~= before);
                },
            }
        }
        k = k + 1;
    }
    if skip_idle {
        proof {
            if is_among(before, idle) && place_of(before, idle) != from {
                let j = lemma_round_reaches(from as int, len, place_of(before, idle));
                assert(before[round_place(from as int, len, j)].handle == idle);
            }
        }
        return None;
    }
    let ghost j = choose|j: int|
        0 <= j < k && before[#[trigger] round_place(from as int, len, j)].handle == idle;
    proof {
        lemma_one_place(before, idle, round_place(from as int, len, j));
    }
    match find_place(contexts, idle) {
        Some(at) => {
            let result = update_runnable(&mut contexts[at], cpu_id, clock[count - 1]);
            match result {
                UpdateResult::CanSwitch => {
                    assert(contexts@ =~= before.update(at as int, awake(before[at as int])));
                    Some(at)
                },
                UpdateResult::Skip => {
                    assert(contexts@ =~= before);
                    None
                },
            }
        },
        None => None,
    }
}

/// The block of a processor at the start of a round.
pub open spec fn begun(percpu: PercpuBlock) -> PercpuBlock {
    PercpuBlock {
        stats: CpuStats {
            context_switches: counter::counted_up(percpu.stats.context_switches),
            ..percpu.stats
        },
        switch_internals: ContextSwitchPercpu { pit_ticks: 0, ..percpu.switch_internals },
        ..percpu
    }
}

/// Counts a round, here and over all processors, and starts to count ticks anew.
pub fn begin_switch(percpu: &mut PercpuBlock, total_switches: &mut u64)
    ensures
        *final(percpu) == begun(*old(percpu)),
        *final(total_switches) == counter::counted_up(*old(total_switches)),
{
    *total_switches = total_switches.wrapping_add(1);
    percpu.stats.add_context_switch_local();
    percpu.switch_internals.pit_ticks = 0;
}

/// Tries to take the lock that keeps the rounds of the processors apart.
pub fn try_acquire(switch_lock: &mut bool) -> (acquired: bool)
    ensures
        acquired == !*old(switch_lock),
        *final(switch_lock),
{
    let acquired: bool = !*switch_lock;
    *switch_lock = true;
    acquired
}

/// Nanoseconds from `start` to `end`, none if `end` comes first.
pub open spec fn elapsed(start: u128, end: u128) -> u128 {
    if end >= start {
        (end - start) as u128
    } else {
        0
    }
}

/// The context that is left.
pub open spec fn left(context: Context, now: u128, inside_syscall: bool) -> Context {
    Context {
        running: false,
        cpu_time: (context.cpu_time + elapsed(context.switch_time, now)) as u128,
        inside_syscall,
        ..context
    }
}

/// The context that is entered.
pub open spec fn entered(context: Context, now: u128, cpu: LogicalCpuId) -> Context {
    Context { running: true, cpu_id: Some(cpu), switch_time: now, ..awake(context) }
}

/// The block of a processor behind a switch to `next`.
pub open spec fn switched_block(
    percpu: PercpuBlock,
    prev: ContextRef,
    next: Context,
    now: u128,
) -> PercpuBlock {
    PercpuBlock {
        switch_internals: ContextSwitchPercpu {
            switch_result: Some(SwitchResultInner { prev, next: next.handle }),
            switch_time: now,
            current_ctxt: Some(next.handle),
            being_sigkilled: next.being_sigkilled,
            ..percpu.switch_internals
        },
        inside_syscall: next.inside_syscall,
        ptrace_flags: 0,
        ..percpu
    }
}

/// The place of the context that the processor is at.
pub open spec fn current_place(contexts: Seq<Context>, percpu: PercpuBlock) -> int {
    place_of(contexts, percpu.switch_internals.current_ctxt->0)
}

/// Where the next round of a processor ends.
pub open spec fn next_place(
    contexts: Seq<Context>,
    percpu: PercpuBlock,
    clock: Seq<u128>,
) -> Option<int> {
    round_end(
        contexts,
        current_place(contexts, percpu),
        percpu.switch_internals.idle_ctxt->0,
        percpu.cpu_id,
        clock,
    )
}

/// Switches to the next context that can run here.
///
/// The lock is held. `contexts` holds the contexts to go round and the one that the
/// processor is at. `wake_clock` holds the time of each look at a context, and
/// `switch_time` the time behind the last. A switch leaves the lock held until
/// [`switch_finish_hook`]; anything else releases it.
pub fn switch(
    percpu: &mut PercpuBlock,
    contexts: &mut Vec<Context>,
    switch_lock: &mut bool,
    wake_clock: &[u128],
    switch_time: u128,
) -> (outcome: SwitchOutcome)
    requires
        *old(switch_lock),
        in_order(old(contexts)@),
        old(contexts)@.len() <= wake_clock@.len(),
        old(percpu).switch_internals.current_ctxt is Some,
        is_among(old(contexts)@, old(percpu).switch_internals.current_ctxt->0),
        old(contexts)@[current_place(old(contexts)@, *old(percpu))].preemptable ==> {
            let prev = old(contexts)@[current_place(old(contexts)@, *old(percpu))];
            &&& old(percpu).switch_internals.idle_ctxt is Some
            &&& prev.cpu_time + elapsed(prev.switch_time, switch_time) <= u128::MAX
        },
    ensures
        *final(switch_lock) <==> outcome.result is Switched,
        outcome.add_time_ms matches Some(ms) ==> 0 <= switch_time - old(
            percpu,
        ).switch_internals.switch_time <= u64::MAX ==> ms * 1_000_000 <= switch_time - old(
            percpu,
        ).switch_internals.switch_time < (ms + 1) * 1_000_000,
        outcome.result is NotPreemptable <==> !old(contexts)@[current_place(
            old(contexts)@,
            *old(percpu),
        )].preemptable,
        outcome.result is AllContextsIdle ==> next_place(
            old(contexts)@,
            *old(percpu),
            wake_clock@,
        ) is None,
        ({
            let place = current_place(old(contexts)@, *old(percpu));
            let prev = old(contexts)@[place];
            let end = next_place(old(contexts)@, *old(percpu), wake_clock@);
            let nanos = elapsed(old(percpu).switch_internals.switch_time, switch_time) as u64;
            let round_ms = Some((nanos / 1_000_000) as u64);
            if !prev.preemptable {
                &&& final(contexts)@ == old(contexts)@
                &&& *final(percpu) == *old(percpu)
                &&& !*final(switch_lock)
                &&& outcome == SwitchOutcome {
                    result: SwitchResult::NotPreemptable,
                    switch_to: None,
                    add_time_ms: None,
                    set_state: None,
                }
            } else if end is None {
                &&& final(contexts)@ == old(contexts)@
                &&& *final(percpu) == PercpuBlock {
                    switch_internals: ContextSwitchPercpu {
                        switch_time,
                        ..old(percpu).switch_internals
                    },
                    ..*old(percpu)
                }
                &&& !*final(switch_lock)
                &&& outcome == SwitchOutcome {
                    result: SwitchResult::AllContextsIdle,
                    switch_to: None,
                    add_time_ms: round_ms,
                    set_state: Some(CpuState::Idle),
                }
            } else {
                let next = old(contexts)@[end->0];
                &&& 0 <= end->0 < old(contexts)@.len()
                &&& end->0 != place
                &&& final(contexts)@ == old(contexts)@.update(
                    place,
                    left(prev, switch_time, old(percpu).inside_syscall),
                ).update(end->0, entered(next, switch_time, old(percpu).cpu_id))
                &&& *final(percpu) == switched_block(*old(percpu), prev.handle, next, switch_time)
                &&& *final(switch_lock)
                &&& outcome == SwitchOutcome {
                    result: SwitchResult::Switched,
                    switch_to: Some(
                        SwitchResultInner { prev: prev.handle, next: next.handle },
                    ),
                    add_time_ms: round_ms,
                    set_state: Some(
                        if next.userspace {
                            CpuState::User
                        } else {
                            CpuState::Kernel
                        },
                    ),
                }
            }
        }),
{
    let ghost before = contexts@;
    let ghost block = *percpu;
    let cpu_id: LogicalCpuId = percpu.cpu_id;
    let current: ContextRef = percpu.switch_internals.current_ctxt.unwrap();
    let place: usize = find_place(contexts, current).unwrap();
    if !contexts[place].preemptable {
        *switch_lock = false;
        return SwitchOutcome {
            result: SwitchResult::NotPreemptable,
            switch_to: None,
            add_time_ms: None,
            set_state: None,
        };
    }
    let idle: ContextRef = percpu.switch_internals.idle_context();
    let next_opt = select_next(contexts, place, idle, cpu_id, wake_clock);
    let since: u128 = switch_time.saturating_sub(percpu.switch_internals.switch_time);
    let percpu_nanos: u64 = #[verifier::truncate]
    (since as u64);
    let percpu_ms: u64 = percpu_nanos / 1_000_000;
    percpu.switch_internals.switch_time = switch_time;
    match next_opt {
        Some(next) => {
            let prev_handle: ContextRef = contexts[place].handle;
            let next_handle: ContextRef = contexts[next].handle;
            let ran: u128 = switch_time.saturating_sub(contexts[place].switch_time);
            contexts[place].running = false;
            contexts[next].running = true;
            contexts[next].cpu_id = Some(cpu_id);
            contexts[place].cpu_time = contexts[place].cpu_time + ran;
            contexts[next].switch_time = switch_time;
            let state: CpuState = if contexts[next].userspace {
                CpuState::User
            } else {
                CpuState::Kernel
            };
            percpu.switch_internals.set_current_context(next_handle);
            let pair = SwitchResultInner { prev: prev_handle, next: next_handle };
            percpu.switch_internals.switch_result = Some(pair);
            percpu.ptrace_flags = 0;
            contexts[place].inside_syscall = percpu.inside_syscall;
            percpu.inside_syscall = contexts[next].inside_syscall;
            percpu.switch_internals.being_sigkilled = contexts[next].being_sigkilled;
            proof {
                let after = before.update(
                    place as int,
                    left(before[place as int], switch_time, block.inside_syscall),
                ).update(next as int, entered(before[next as int], switch_time, cpu_id));
                assert(contexts@ =~= after);
            }
            SwitchOutcome {
                result: SwitchResult::Switched,
                switch_to: Some(pair),
                add_time_ms: Some(percpu_ms),
                set_state: Some(state),
            }
        },
        None => {
            *switch_lock = false;
            SwitchOutcome {
                result: SwitchResult::AllContextsIdle,
                switch_to: None,
                add_time_ms: Some(percpu_ms),
                set_state: Some(CpuState::Idle),
            }
        },
    }
}

/// The block of a processor with no switch under way.
pub open spec fn finished_block(percpu: PercpuBlock) -> PercpuBlock {
    PercpuBlock {
        switch_internals: ContextSwitchPercpu { switch_result: None, ..percpu.switch_internals },
        ..percpu
    }
}

/// What is left to be done where the given switch is under way, or none is.
pub open spec fn finish_action(under_way: Option<SwitchResultInner>) -> FinishAction {
    match under_way {
        Some(pair) => FinishAction::ArchHookThenInterrupts { released: pair },
        None => FinishAction::EmergencyReset,
    }
}

/// Finishes a switch in the context that was entered: both contexts are released,
/// then the lock; the hook of the architecture and the interrupts are left to the
/// caller, in that order. Without a switch to finish there is no way to go on.
pub fn switch_finish_hook(percpu: &mut PercpuBlock, switch_lock: &mut bool) -> (action: FinishAction)
    ensures
        action == finish_action(old(percpu).switch_internals.switch_result),
        action is ArchHookThenInterrupts ==> !*final(switch_lock),
        action is EmergencyReset ==> *final(switch_lock) == *old(switch_lock),
        *final(percpu) == finished_block(*old(percpu)),
{
    match percpu.switch_internals.switch_result.take() {
        Some(released) => {
            *switch_lock = false;
            FinishAction::ArchHookThenInterrupts { released }
        },
        None => FinishAction::EmergencyReset,
    }
}

/// A round never ends at the context that it started behind, nor at one that a
/// processor is at or that this processor may not take. It ends at the first
/// context in the order of the round that can be switched to, the idle context
/// last.
pub proof fn lemma_round_is_fair(
    contexts: Seq<Context>,
    from: int,
    idle: ContextRef,
    cpu: LogicalCpuId,
    clock: Seq<u128>,
)
    requires
        in_order(contexts),
        0 <= from < contexts.len() <= clock.len(),
    ensures
        round_end(contexts, from, idle, cpu, clock) matches Some(place) ==> {
            &&& 0 <= place < contexts.len()
            &&& place != from
            &&& !contexts[place].running
            &&& contexts[place].sched_affinity@.contains(cpu@)
            &&& contexts[place].handle != idle ==> exists|k: int|
                0 <= k < contexts.len() - 1 && place == round_place(
                    from,
                    contexts.len() as int,
                    k,
                ) && #[trigger] takes_at(contexts, from, idle, cpu, clock, k) && forall|j: int|
                    0 <= j < k ==> !#[trigger] takes_at(contexts, from, idle, cpu, clock, j)
            &&& contexts[place].handle == idle ==> forall|j: int|
                0 <= j < contexts.len() - 1 ==> !#[trigger] takes_at(
                    contexts,
                    from,
                    idle,
                    cpu,
                    clock,
                    j,
                )
        },
        round_end(contexts, from, idle, cpu, clock) is None ==> forall|j: int|
            0 <= j < contexts.len() - 1 ==> !#[trigger] takes_at(
                contexts,
                from,
                idle,
                cpu,
                clock,
                j,
            ),
{
    lemma_first_taken(contexts, from, idle, cpu, clock, 0);
    if is_among(contexts, idle) {
        assert(is_at(contexts, idle, place_of(contexts, idle)));
    }
}

/// What [`first_taken`] finds is the first.
proof fn lemma_first_taken(
    contexts: Seq<Context>,
    from: int,
    idle: ContextRef,
    cpu: LogicalCpuId,
    clock: Seq<u128>,
    k: int,
)
    requires
        0 <= from < contexts.len(),
        0 <= k,
    ensures
        first_taken(contexts, from, idle, cpu, clock, k) matches Some(place) ==> exists|n: int|
            k <= n < contexts.len() - 1 && place == round_place(from, contexts.len() as int, n)
                && #[trigger] takes_at(contexts, from, idle, cpu, clock, n) && forall|j: int|
                k <= j < n ==> !#[trigger] takes_at(contexts, from, idle, cpu, clock, j),
        first_taken(contexts, from, idle, cpu, clock, k) is None ==> forall|j: int|
            k <= j < contexts.len() - 1 ==> !#[trigger] takes_at(
                contexts,
                from,
                idle,
                cpu,
                clock,
                j,
            ),
    decreases contexts.len() - k,
{
    if k < contexts.len() - 1 && !takes_at(contexts, from, idle, cpu, clock, k) {
        lemma_first_taken(contexts, from, idle, cpu, clock, k + 1);
        if let Some(place) = first_taken(contexts, from, idle, cpu, clock, k + 1) {
            let n = choose|n: int|
                k + 1 <= n < contexts.len() - 1 && place == round_place(
                    from,
                    contexts.len() as int,
                    n,
                ) && #[trigger] takes_at(contexts, from, idle, cpu, clock, n) && forall|j: int|
                    k + 1 <= j < n ==> !#[trigger] takes_at(contexts, from, idle, cpu, clock, j);
            assert(takes_at(contexts, from, idle, cpu, clock, n));
        }
    }
}

/// A context that can be switched to is not passed over: the round ends at it, or
/// at one that stands before it in the round, and then it stands so much further
/// in front in the round that starts there. So its turn comes after at most as
/// many rounds as contexts stand before it.
pub proof fn lemma_turn_comes(
    contexts: Seq<Context>,
    from: int,
    idle: ContextRef,
    cpu: LogicalCpuId,
    clock: Seq<u128>,
    k: int,
) -> (n: int)
    requires
        in_order(contexts),
        0 <= from < contexts.len() <= clock.len(),
        0 <= k < contexts.len() - 1,
        takes_at(contexts, from, idle, cpu, clock, k),
    ensures
        0 <= n <= k,
        round_end(contexts, from, idle, cpu, clock) == Some(
            round_place(from, contexts.len() as int, n),
        ),
        n < k ==> round_place(
            round_place(from, contexts.len() as int, n),
            contexts.len() as int,
            k - n - 1,
        ) == round_place(from, contexts.len() as int, k),
{
    let len = contexts.len() as int;
    lemma_first_taken(contexts, from, idle, cpu, clock, 0);
    let place = first_taken(contexts, from, idle, cpu, clock, 0)->0;
    choose|n: int|
        0 <= n < len - 1 && place == round_place(from, len, n) && #[trigger] takes_at(
            contexts,
            from,
            idle,
            cpu,
            clock,
            n,
        ) && forall|j: int|
            0 <= j < n ==> !#[trigger] takes_at(contexts, from, idle, cpu, clock, j)
}

/// Where a round ends nowhere, all other contexts are idle: whichever other than
/// the current and the idle one is looked at, it cannot be switched to when it is
/// looked at, and so it is not free, runnable and bound to this processor.
pub proof fn lemma_all_contexts_are_idle(
    contexts: Seq<Context>,
    from: int,
    idle: ContextRef,
    cpu: LogicalCpuId,
    clock: Seq<u128>,
    at: int,
) -> (k: int)
    requires
        in_order(contexts),
        0 <= from < contexts.len() <= clock.len(),
        round_end(contexts, from, idle, cpu, clock) is None,
        0 <= at < contexts.len(),
        at != from,
        contexts[at].handle != idle,
    ensures
        0 <= k < contexts.len() - 1,
        round_place(from, contexts.len() as int, k) == at,
        !is_eligible(contexts[at], cpu, clock[k]),
        !(!contexts[at].running && contexts[at].sched_affinity@.contains(cpu@)
            && contexts[at].status is Runnable),
{
    let k = lemma_round_reaches(from, contexts.len() as int, at);
    lemma_first_taken(contexts, from, idle, cpu, clock, 0);
    assert(!takes_at(contexts, from, idle, cpu, clock, k));
    k
}

/// The third tick behind the start of a round is the first to ask for another.
pub proof fn lemma_third_tick_asks(percpu: PercpuBlock)
    ensures
        !is_turn_over(begun(percpu)),
        !is_turn_over(ticked(begun(percpu))),
        !is_turn_over(ticked(ticked(begun(percpu)))),
        is_turn_over(ticked(ticked(ticked(begun(percpu))))),
{
}

/// A switch can be finished, once: it is under way in the block behind it, and no
/// longer when it is finished.
pub proof fn lemma_switch_is_finished_once(
    percpu: PercpuBlock,
    prev: ContextRef,
    next: Context,
    now: u128,
)
    ensures
        finish_action(switched_block(percpu, prev, next, now).switch_internals.switch_result) == (
        FinishAction::ArchHookThenInterrupts {
            released: SwitchResultInner { prev, next: next.handle },
        }),
        finish_action(
            finished_block(
                switched_block(percpu, prev, next, now),
            ).switch_internals.switch_result,
        ) is EmergencyReset,
        finished_block(
            switched_block(percpu, prev, next, now),
        ).switch_internals.current_ctxt == Some(next.handle),
{
}

/// A switch keeps the contexts in the order of their handles, so that the next
/// round can start.
pub proof fn lemma_switch_keeps_order(
    contexts: Seq<Context>,
    place: int,
    next: int,
    now: u128,
    inside_syscall: bool,
    cpu: LogicalCpuId,
)
    requires
        in_order(contexts),
        0 <= place < contexts.len(),
        0 <= next < contexts.len(),
        place != next,
    ensures
        in_order(
            contexts.update(place, left(contexts[place], now, inside_syscall)).update(
                next,
                entered(contexts[next], now, cpu),
            ),
        ),
{
    let after = contexts.update(place, left(contexts[place], now, inside_syscall)).update(
        next,
        entered(contexts[next], now, cpu),
    );
    assert forall|i: int, j: int| 0 <= i < j < after.len() implies (#[trigger] after[i]).handle.id
        < (#[trigger] after[j]).handle.id by {
        assert(contexts[i].handle.id < contexts[j].handle.id);
    }
}

/// Number of contexts that processors are at.
pub open spec fn running_count(contexts: Seq<Context>) -> nat {
    contexts.filter(|context: Context| context.running).len()
}

/// Changing one context changes the number by what that context counts.
proof fn lemma_running_update(contexts: Seq<Context>, at: int, context: Context)
    requires
        0 <= at < contexts.len(),
    ensures
        running_count(contexts.update(at, context)) + (if contexts[at].running {
            1nat
        } else {
            0nat
        }) == running_count(contexts) + (if context.running {
            1nat
        } else {
            0nat
        }),
    decreases contexts.len(),
{
    reveal(Seq::filter);
    let updated = contexts.update(at, context);
    if at == contexts.len() - 1 {
        assert(updated.drop_last() =~= contexts.drop_last());
    } else {
        assert(updated.drop_last() =~= contexts.drop_last().update(at, context));
        lemma_running_update(contexts.drop_last(), at, context);
    }
}

/// A switch passes the processor on: with the context that is left running and
/// the one that is entered not, as many contexts run behind it as before.
pub proof fn lemma_switch_passes_processor_on(
    contexts: Seq<Context>,
    place: int,
    next: int,
    now: u128,
    inside_syscall: bool,
    cpu: LogicalCpuId,
)
    requires
        0 <= place < contexts.len(),
        0 <= next < contexts.len(),
        place != next,
        contexts[place].running,
        !contexts[next].running,
    ensures
        ({
            let after = contexts.update(place, left(contexts[place], now, inside_syscall)).update(
                next,
                entered(contexts[next], now, cpu),
            );
            &&& running_count(after) == running_count(contexts)
            &&& !after[place].running
            &&& after[next].running
        }),
{
    let between = contexts.update(place, left(contexts[place], now, inside_syscall));
    lemma_running_update(contexts, place, left(contexts[place], now, inside_syscall));
    lemma_running_update(between, next, entered(contexts[next], now, cpu));
}

/// Whether a context can be switched to is a matter of four of its fields: no
/// processor is at it, this one may take it, and it is runnable or waits for a time
/// that has come.
pub proof fn lemma_who_can_be_switched_to(context: Context, cpu: LogicalCpuId, now: u128)
    ensures
        is_eligible(context, cpu, now) <==> {
            &&& !context.running
            &&& context.sched_affinity@.contains(cpu@)
            &&& {
                ||| context.status == Status::Runnable
                ||| context.status == Status::Blocked && (context.wake matches Some(wake) && wake
                    <= now)
            }
        },
{
}

/// A sleeper whose time has come is woken, whatever else is true of it: it can be
/// switched to, and it is runnable and waits for no time when it was looked at. All
/// else stays.
pub proof fn lemma_sleeper_is_woken(context: Context, cpu: LogicalCpuId, now: u128, wake: u128)
    requires
        !context.running,
        context.sched_affinity@.contains(cpu@),
        context.status == Status::Blocked,
        context.wake == Some(wake),
        wake <= now,
    ensures
        is_eligible(context, cpu, now),
        looked_at(context, cpu, now).status == Status::Runnable,
        looked_at(context, cpu, now).wake is None,
        looked_at(context, cpu, now) == (Context {
            status: Status::Runnable,
            wake: None,
            ..context
        }),
{
}

/// A context that does not sleep, or sleeps on, is left as it is by a look.
pub proof fn lemma_others_are_left_alone(context: Context, cpu: LogicalCpuId, now: u128)
    requires
        context.running || !context.sched_affinity@.contains(cpu@) || context.status
            != Status::Blocked || (context.wake matches Some(wake) ==> now < wake),
    ensures
        looked_at(context, cpu, now) == context,
{
}

/// Two contexts that agree on these four fields are treated alike, and one that can
/// be switched to at some time can be later on.
pub proof fn lemma_four_fields_decide(
    one: Context,
    other: Context,
    cpu: LogicalCpuId,
    now: u128,
    later: u128,
)
    requires
        one.running == other.running,
        one.sched_affinity@ == other.sched_affinity@,
        one.status == other.status,
        one.wake == other.wake,
        now <= later,
    ensures
        is_eligible(one, cpu, now) == is_eligible(other, cpu, now),
        is_eligible(one, cpu, now) ==> is_eligible(one, cpu, later),
{
}

/// The round goes through all contexts but the one it starts behind, each once, in
/// the order of their handles and from the last on to the first.
pub proof fn lemma_round_order(from: int, len: int, k: int)
    requires
        0 <= from < len,
        0 <= k < len - 1,
    ensures
        round_place(from, len, k) == (from + 1 + k) % len,
        round_place(from, len, k) != from,
        0 <= round_place(from, len, k) < len,
{
    if from + 1 + k < len {
        vstd::arithmetic::div_mod::lemma_small_mod((from + 1 + k) as nat, len as nat);
    } else {
        vstd::arithmetic::div_mod::lemma_small_mod((from + 1 + k - len) as nat, len as nat);
        vstd::arithmetic::div_mod::lemma_mod_add_multiples_vanish(from + 1 + k - len, len);
    }
}

/// A context is found by its handle.
pub proof fn lemma_found_by_handle(contexts: Seq<Context>, at: int)
    requires
        in_order(contexts),
        0 <= at < contexts.len(),
    ensures
        is_among(contexts, contexts[at].handle),
        place_of(contexts, contexts[at].handle) == at,
{
    lemma_one_place(contexts, contexts[at].handle, at);
}

/// A round goes no further than to a context, other than the idle one, that is ready
/// when the round comes to it: one that no processor is at, that this one may take,
/// and that is runnable or sleeps up to a time that has come, whatever else is true
/// of it. The round ends at it, or at one that stands before it in the round.
pub proof fn lemma_round_stops_at_a_ready_context(
    contexts: Seq<Context>,
    from: int,
    idle: ContextRef,
    cpu: LogicalCpuId,
    clock: Seq<u128>,
    k: int,
    wake: u128,
) -> (n: int)
    requires
        in_order(contexts),
        0 <= from < contexts.len() <= clock.len(),
        0 <= k < contexts.len() - 1,
        ({
            let context = contexts[(from + 1 + k) % (contexts.len() as int)];
            &&& context.handle != idle
            &&& !context.running
            &&& context.sched_affinity@.contains(cpu@)
            &&& context.status == Status::Runnable || context.status == Status::Blocked
                && context.wake == Some(wake) && wake <= clock[k]
        }),
    ensures
        0 <= n <= k,
        round_end(contexts, from, idle, cpu, clock) == Some(
            (from + 1 + n) % (contexts.len() as int),
        ),
{
    let len = contexts.len() as int;
    lemma_round_order(from, len, k);
    assert(takes_at(contexts, from, idle, cpu, clock, k));
    lemma_first_taken(contexts, from, idle, cpu, clock, 0);
    let place = first_taken(contexts, from, idle, cpu, clock, 0)->0;
    let n = choose|n: int|
        0 <= n < len - 1 && place == round_place(from, len, n) && #[trigger] takes_at(
            contexts,
            from,
            idle,
            cpu,
            clock,
            n,
        ) && forall|j: int|
            0 <= j < n ==> !#[trigger] takes_at(contexts, from, idle, cpu, clock, j);
    lemma_round_order(from, len, n);
    n
}

/// A round ends only at a context that is ready: at the `k`-th place, if it is not
/// the idle one, and then no context before it was ready when the round came to it;
/// or at the idle one, as a last resort.
pub proof fn lemma_round_ends_at_a_ready_context(
    contexts: Seq<Context>,
    from: int,
    idle: ContextRef,
    cpu: LogicalCpuId,
    clock: Seq<u128>,
    place: int,
    j: int,
) -> (k: int)
    requires
        in_order(contexts),
        0 <= from < contexts.len() <= clock.len(),
        round_end(contexts, from, idle, cpu, clock) == Some(place),
        0 <= j < contexts.len() - 1,
    ensures
        0 <= place < contexts.len(),
        place != from,
        !contexts[place].running,
        contexts[place].sched_affinity@.contains(cpu@),
        contexts[place].handle == idle ==> k == contexts.len() - 1,
        contexts[place].handle != idle ==> 0 <= k < contexts.len() - 1 && place == (from + 1 + k)
            % (contexts.len() as int),
        contexts[place].status == Status::Runnable || contexts[place].status == Status::Blocked
            && contexts[place].wake is Some && contexts[place].wake->0 <= clock[k],
        j < k ==> ({
            let context = contexts[(from + 1 + j) % (contexts.len() as int)];
            ||| context.handle == idle
            ||| context.running
            ||| !context.sched_affinity@.contains(cpu@)
            ||| context.status != Status::Runnable && (context.status != Status::Blocked
                || context.wake is None || clock[j] < context.wake->0)
        }),
{
    let len = contexts.len() as int;
    lemma_round_is_fair(contexts, from, idle, cpu, clock);
    lemma_first_taken(contexts, from, idle, cpu, clock, 0);
    lemma_round_order(from, len, j);
    if is_among(contexts, idle) {
        assert(is_at(contexts, idle, place_of(contexts, idle)));
    }
    if contexts[place].handle == idle {
        assert(!takes_at(contexts, from, idle, cpu, clock, j));
        len - 1
    } else {
        let k = choose|k: int|
            0 <= k < len - 1 && place == round_place(from, len, k) && #[trigger] takes_at(
                contexts,
                from,
                idle,
                cpu,
                clock,
                k,
            ) && forall|j: int|
                0 <= j < k ==> !#[trigger] takes_at(contexts, from, idle, cpu, clock, j);
        lemma_round_order(from, len, k);
        if j < k {
            assert(!takes_at(contexts, from, idle, cpu, clock, j));
        }
        k
    }
}

/// A round that ends nowhere has found nobody ready: neither the context at any
/// place of it, but for the idle one, nor at last the idle one, if that is there and
/// not the current one.
pub proof fn lemma_round_that_ends_nowhere(
    contexts: Seq<Context>,
    from: int,
    idle: ContextRef,
    cpu: LogicalCpuId,
    clock: Seq<u128>,
    at: int,
)
    requires
        in_order(contexts),
        0 <= from < contexts.len() <= clock.len(),
        0 <= at < contexts.len(),
        at != from,
        contexts[at].handle == idle,
        !contexts[at].running,
        contexts[at].sched_affinity@.contains(cpu@),
        contexts[at].status == Status::Runnable || contexts[at].status == Status::Blocked
            && contexts[at].wake is Some && contexts[at].wake->0 <= clock[contexts.len() - 1],
    ensures
        round_end(contexts, from, idle, cpu, clock) is Some,
{
    lemma_one_place(contexts, idle, at);
}

/// The next round of a processor starts behind the context that it is at, on this
/// processor, with its own idle context.
pub proof fn lemma_which_round_is_next(
    contexts: Seq<Context>,
    percpu: PercpuBlock,
    clock: Seq<u128>,
    at: int,
    idle: ContextRef,
)
    requires
        in_order(contexts),
        0 <= at < contexts.len(),
        percpu.switch_internals.current_ctxt == Some(contexts[at].handle),
        percpu.switch_internals.idle_ctxt == Some(idle),
    ensures
        current_place(contexts, percpu) == at,
        next_place(contexts, percpu, clock) == round_end(
            contexts,
            at,
            idle,
            percpu.cpu_id,
            clock,
        ),
{
    lemma_one_place(contexts, contexts[at].handle, at);
}

/// A processor that has not run a context yet is at none, has none to go to, and has
/// counted nothing.
pub proof fn lemma_what_fresh_means(internals: ContextSwitchPercpu)
    ensures
        internals.is_fresh() <==> {
            &&& internals.switch_result is None
            &&& internals.switch_time == 0
            &&& internals.pit_ticks == 0
            &&& internals.current_ctxt is None
            &&& internals.idle_ctxt is None
            &&& !internals.being_sigkilled
        },
{
}

/// A context that is left is charged with the time since it was entered, never less
/// than nothing, and no processor is at it. It keeps whether it was inside a system
/// call. All else stays.
pub proof fn lemma_what_leaving_does(context: Context, now: u128, inside_syscall: bool)
    requires
        now >= context.switch_time ==> context.cpu_time + (now - context.switch_time) <= u128::MAX,
    ensures
        ({
            let after = left(context, now, inside_syscall);
            &&& now >= context.switch_time ==> after.cpu_time == context.cpu_time + now
                - context.switch_time
            &&& now < context.switch_time ==> after.cpu_time == context.cpu_time
            &&& !after.running
            &&& after.inside_syscall == inside_syscall
            &&& after == (Context {
                running: false,
                cpu_time: after.cpu_time,
                inside_syscall,
                ..context
            })
        }),
{
}

/// A context that is entered runs on this processor from now on, awake. All else
/// stays.
pub proof fn lemma_what_entering_does(context: Context, now: u128, cpu: LogicalCpuId)
    ensures
        ({
            let after = entered(context, now, cpu);
            &&& after.running
            &&& after.cpu_id == Some(cpu)
            &&& after.switch_time == now
            &&& context.status == Status::Blocked ==> after.status == Status::Runnable
                && after.wake is None
            &&& context.status != Status::Blocked ==> after.status == context.status && after.wake
                == context.wake
            &&& after == (Context {
                running: true,
                cpu_id: Some(cpu),
                switch_time: now,
                status: after.status,
                wake: after.wake,
                ..context
            })
        }),
{
}

/// Behind a switch the processor is at the new context, knows of it whether it is
/// inside a system call and being killed, traces nothing, and has both contexts
/// under way. All else stays.
pub proof fn lemma_what_switching_does_to_the_processor(
    percpu: PercpuBlock,
    prev: ContextRef,
    next: Context,
    now: u128,
)
    ensures
        ({
            let after = switched_block(percpu, prev, next, now);
            &&& after.switch_internals.current_ctxt == Some(next.handle)
            &&& after.switch_internals.switch_result == Some(
                SwitchResultInner { prev, next: next.handle },
            )
            &&& after.switch_internals.switch_time == now
            &&& after.switch_internals.being_sigkilled == next.being_sigkilled
            &&& after.switch_internals.pit_ticks == percpu.switch_internals.pit_ticks
            &&& after.switch_internals.idle_ctxt == percpu.switch_internals.idle_ctxt
            &&& after.inside_syscall == next.inside_syscall
            &&& after.ptrace_flags == 0
            &&& after.cpu_id == percpu.cpu_id
            &&& after.stats == percpu.stats
        }),
{
}

/// The time between two readings of a clock is what has to be added to the first
/// to come to the second, and none where the second comes first.
pub proof fn lemma_elapsed_time(start: u128, end: u128)
    ensures
        start <= end ==> start + elapsed(start, end) == end,
        end <= start ==> elapsed(start, end) == 0,
{
}

/// A tick counts one, and nothing else changes.
pub proof fn lemma_what_a_tick_counts(percpu: PercpuBlock)
    requires
        percpu.switch_internals.pit_ticks < usize::MAX,
    ensures
        ticked(percpu).switch_internals.pit_ticks == percpu.switch_internals.pit_ticks + 1,
        ticked(percpu).switch_internals == (ContextSwitchPercpu {
            pit_ticks: ticked(percpu).switch_internals.pit_ticks,
            ..percpu.switch_internals
        }),
        ticked(percpu) == (PercpuBlock {
            switch_internals: ticked(percpu).switch_internals,
            ..percpu
        }),
{
}

/// Three ticks ask for a round. A round counts one, starts to count ticks anew, and
/// changes nothing else before it looks at a context.
pub proof fn lemma_what_a_round_counts(percpu: PercpuBlock)
    ensures
        is_turn_over(percpu) <==> percpu.switch_internals.pit_ticks >= 3,
        begun(percpu).switch_internals == (ContextSwitchPercpu {
            pit_ticks: 0,
            ..percpu.switch_internals
        }),
        begun(percpu).stats.context_switches == (percpu.stats.context_switches + 1)
            % 0x1_0000_0000_0000_0000,
        begun(percpu).stats == (CpuStats {
            context_switches: begun(percpu).stats.context_switches,
            ..percpu.stats
        }),
        begun(percpu) == (PercpuBlock {
            switch_internals: begun(percpu).switch_internals,
            stats: begun(percpu).stats,
            ..percpu
        }),
{
}

/// A switch is finished by the hook and then the interrupts exactly if one is under
/// way, and both its contexts are released; to finish it changes nothing else.
pub proof fn lemma_what_finishing_does(percpu: PercpuBlock, pair: SwitchResultInner)
    ensures
        finish_action(Some(pair)) == (FinishAction::ArchHookThenInterrupts { released: pair }),
        finish_action(None) == FinishAction::EmergencyReset,
        finished_block(percpu) == (PercpuBlock {
            switch_internals: ContextSwitchPercpu {
                switch_result: None,
                ..percpu.switch_internals
            },
            ..percpu
        }),
{
}

} // verus!
