//! Messages between processors.

use crate::counter;
use crate::percpu::{CpuStats, PercpuBlock};
use vstd::prelude::*;

verus! {

/// What a message says.
#[derive(Clone, Copy, Debug, PartialEq, Eq, Structural)]
pub enum IpiKind {
    /// Wake up.
    Wakeup,
    /// Drop stale address translations.
    Tlb,
    /// Switch contexts.
    Switch,
    /// The timer ticked.
    Pit,
    /// Stop.
    Kstop,
}

/// Who a message goes to.
#[derive(Clone, Copy, Debug, PartialEq, Eq, Structural)]
pub enum IpiTarget {
    /// The sender.
    Current,
    /// All but the sender.
    Other,
    /// All.
    All,
}

/// A message for the interrupt controller to send.
#[derive(Clone, Copy, Debug, PartialEq, Eq, Structural)]
pub struct SgiRequest {
    /// What it says.
    pub kind: IpiKind,
    /// Who it goes to.
    pub target: IpiTarget,
}

/// What a message asks of the processor that received it.
#[derive(Clone, Copy, Debug, PartialEq, Eq, Structural)]
pub enum IpiWork {
    /// Nothing but to end it.
    Acknowledge,
    /// To look for stale address translations.
    TlbShootdown,
    /// To switch contexts.
    Switch,
    /// To count a tick.
    Tick,
    /// To halt for good.
    Halt,
}

/// What a processor does about a message.
#[derive(Clone, Copy, Debug, PartialEq, Eq, Structural)]
pub struct IpiHandling {
    /// What it asks for.
    pub work: IpiWork,
    /// The interrupt to be ended at the controller behind that.
    pub eoi: Option<u32>,
}

impl IpiKind {
    /// The number of the interrupt that carries the message.
    pub open spec fn sgi(self) -> u32 {
        match self {
            IpiKind::Wakeup => 0,
            IpiKind::Tlb => 1,
            IpiKind::Switch => 2,
            IpiKind::Pit => 3,
            IpiKind::Kstop => 4,
        }
    }

    /// The number of the interrupt that carries the message.
    pub fn number(self) -> (number: u32)
        ensures
            number == self.sgi(),
    {
        match self {
            IpiKind::Wakeup => 0,
            IpiKind::Tlb => 1,
            IpiKind::Switch => 2,
            IpiKind::Pit => 3,
            IpiKind::Kstop => 4,
        }
    }

    /// The message that an interrupt carries, if it carries one.
    pub fn from_sgi(sgi_num: u32) -> (kind: Option<IpiKind>)
        ensures
            kind == message_of(sgi_num),
    {
        match sgi_num {
            0 => Some(IpiKind::Wakeup),
            1 => Some(IpiKind::Tlb),
            2 => Some(IpiKind::Switch),
            3 => Some(IpiKind::Pit),
            4 => Some(IpiKind::Kstop),
            _ => None,
        }
    }
}

/// The message that an interrupt carries.
pub open spec fn message_of(sgi_num: u32) -> Option<IpiKind> {
    if sgi_num == 0 {
        Some(IpiKind::Wakeup)
    } else if sgi_num == 1 {
        Some(IpiKind::Tlb)
    } else if sgi_num == 2 {
        Some(IpiKind::Switch)
    } else if sgi_num == 3 {
        Some(IpiKind::Pit)
    } else if sgi_num == 4 {
        Some(IpiKind::Kstop)
    } else {
        None
    }
}

impl IpiTarget {
    /// The number by which the controller knows the target.
    pub fn number(self) -> (number: u8)
        ensures
            number == (match self {
                IpiTarget::Current => 1u8,
                IpiTarget::Other => 2u8,
                IpiTarget::All => 3u8,
            }),
    {
        match self {
            IpiTarget::Current => 1,
            IpiTarget::Other => 2,
            IpiTarget::All => 3,
        }
    }
}

/// Sends a message, and counts it. Nothing is sent unless more than one processor
/// is built in.
pub fn ipi(kind: IpiKind, target: IpiTarget, multi_core: bool, stats: &mut CpuStats) -> (sent:
    Option<SgiRequest>)
    ensures
        multi_core ==> {
            &&& sent == Some(SgiRequest { kind, target })
            &&& *final(stats) == CpuStats {
                ipis_sent: counter::counted_up(old(stats).ipis_sent),
                ..*old(stats)
            }
        },
        !multi_core ==> sent is None && *final(stats) == *old(stats),
{
    if !multi_core {
        return None;
    }
    stats.add_ipi_sent();
    Some(SgiRequest { kind, target })
}

/// Sends a message to one processor. The controller is not asked for that yet:
/// nothing is sent, and nothing counted.
pub fn ipi_single(_kind: IpiKind, _target: &PercpuBlock) -> (sent: Option<SgiRequest>)
    ensures
        sent is None,
{
    None
}

/// What a message asks for.
pub open spec fn work_for(kind: IpiKind) -> IpiWork {
    match kind {
        IpiKind::Wakeup => IpiWork::Acknowledge,
        IpiKind::Tlb => IpiWork::TlbShootdown,
        IpiKind::Switch => IpiWork::Switch,
        IpiKind::Pit => IpiWork::Tick,
        IpiKind::Kstop => IpiWork::Halt,
    }
}

/// What is done about an interrupt: the work that the message asks for, then its
/// end. A processor that halts does not get to end it.
pub open spec fn handling_of(sgi_num: u32) -> IpiHandling {
    match message_of(sgi_num) {
        Some(kind) => IpiHandling {
            work: work_for(kind),
            eoi: if kind is Kstop {
                None
            } else {
                Some(sgi_num)
            },
        },
        None => IpiHandling { work: IpiWork::Acknowledge, eoi: Some(sgi_num) },
    }
}

/// Decides what to do about an interrupt that carries a message, and counts the
/// message if it is one.
pub fn handle_ipi(sgi_num: u32, stats: &mut CpuStats) -> (handling: IpiHandling)
    ensures
        handling == handling_of(sgi_num),
        message_of(sgi_num) is Some ==> *final(stats) == (CpuStats {
            ipis_received: counter::counted_up(old(stats).ipis_received),
            ..*old(stats)
        }),
        message_of(sgi_num) is None ==> *final(stats) == *old(stats),
        sgi_num <= 4 ==> final(stats).ipis_received == (old(stats).ipis_received + 1)
            % 0x1_0000_0000_0000_0000,
        sgi_num > 4 ==> final(stats).ipis_received == old(stats).ipis_received,
{
    match IpiKind::from_sgi(sgi_num) {
        Some(kind) => {
            stats.add_ipi_received();
            match kind {
                IpiKind::Wakeup => IpiHandling { work: IpiWork::Acknowledge, eoi: Some(sgi_num) },
                IpiKind::Tlb => IpiHandling { work: IpiWork::TlbShootdown, eoi: Some(sgi_num) },
                IpiKind::Switch => IpiHandling { work: IpiWork::Switch, eoi: Some(sgi_num) },
                IpiKind::Pit => IpiHandling { work: IpiWork::Tick, eoi: Some(sgi_num) },
                IpiKind::Kstop => IpiHandling { work: IpiWork::Halt, eoi: None },
            }
        },
        None => IpiHandling { work: IpiWork::Acknowledge, eoi: Some(sgi_num) },
    }
}

/// A message that was sent is taken for what it says by whoever receives it, and
/// two messages never share an interrupt.
pub proof fn lemma_message_arrives(kind: IpiKind)
    ensures
        message_of(kind.sgi()) == Some(kind),
        handling_of(kind.sgi()).work == work_for(kind),
        forall|other: IpiKind| #[trigger] other.sgi() == kind.sgi() ==> other == kind,
{
}

/// Every interrupt is ended but the one that stops the processor.
pub proof fn lemma_every_message_is_ended(sgi_num: u32)
    ensures
        handling_of(sgi_num).eoi == (if sgi_num == IpiKind::Kstop.sgi() {
            None
        } else {
            Some(sgi_num)
        }),
{
}

/// The messages have the numbers from zero to four, in this order, and no other
/// number is a message.
pub proof fn lemma_numbers_of_messages(sgi_num: u32)
    ensures
        IpiKind::Wakeup.sgi() == 0,
        IpiKind::Tlb.sgi() == 1,
        IpiKind::Switch.sgi() == 2,
        IpiKind::Pit.sgi() == 3,
        IpiKind::Kstop.sgi() == 4,
        message_of(sgi_num) is Some <==> sgi_num <= 4,
        message_of(sgi_num) matches Some(kind) ==> kind.sgi() == sgi_num,
{
}

/// What each interrupt asks for: a message its own work, and any other interrupt
/// nothing but to be ended.
pub proof fn lemma_work_of_messages(sgi_num: u32)
    ensures
        handling_of(sgi_num).work == IpiWork::TlbShootdown <==> sgi_num == 1,
        handling_of(sgi_num).work == IpiWork::Switch <==> sgi_num == 2,
        handling_of(sgi_num).work == IpiWork::Tick <==> sgi_num == 3,
        handling_of(sgi_num).work == IpiWork::Halt <==> sgi_num == 4,
        handling_of(sgi_num).work == IpiWork::Acknowledge <==> sgi_num == 0 || sgi_num > 4,
        sgi_num == 4 ==> handling_of(sgi_num).eoi is None,
        sgi_num != 4 ==> handling_of(sgi_num).eoi == Some(sgi_num),
{
}

} // verus!
