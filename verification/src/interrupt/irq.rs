//! Interrupt requests: where each goes, and how often it came.

use crate::counter;
use vstd::prelude::*;

verus! {

/// Number of requests that are messages of other processors: the first of all.
pub const SGI_COUNT: u32 = 16;

/// Number of virtual requests.
pub const VIRQ_COUNT: usize = 1024;

/// Number of requests that are counted.
pub const COUNTED_IRQS: usize = 256;

/// Number of requests between two reports.
pub const IRQS_PER_REPORT: u64 = 100_000;

/// Number of requests in a report.
pub const REPORTED_IRQS: usize = 5;

/// What a request asks for.
#[derive(Clone, Copy, Debug, PartialEq, Eq, Structural)]
pub enum IrqAction {
    /// It is a message of another processor.
    Ipi(u32),
    /// The handlers of a virtual request are to be called.
    TriggerVirq(u32),
    /// It is unexpected.
    Unexpected(u32),
}

/// A request and how often it came.
#[derive(Clone, Copy, Debug, PartialEq, Eq, Structural)]
pub struct IrqCount {
    /// The request.
    pub irq: u32,
    /// How often it came.
    pub count: u64,
}

/// What a request that goes to user space asks for.
#[derive(Clone, Copy, Debug, PartialEq, Eq, Structural)]
pub struct IrqTrigger {
    /// The request to be announced.
    pub announce: u8,
    /// The request to be ended at the controller.
    pub eoi: u32,
}

/// What a request asks for, given the virtual request that it stands for.
pub open spec fn routed(irq: u32, virq: Option<usize>) -> IrqAction {
    if irq < SGI_COUNT {
        IrqAction::Ipi(irq)
    } else {
        match virq {
            Some(number) => if number < VIRQ_COUNT {
                IrqAction::TriggerVirq(number as u32)
            } else {
                IrqAction::Unexpected(irq)
            },
            None => IrqAction::Unexpected(irq),
        }
    }
}

/// Decides where a request goes that came in user space.
pub fn irq_at_el0(irq: u32, virq: Option<usize>) -> (action: IrqAction)
    ensures
        action == routed(irq, virq),
{
    if irq < SGI_COUNT {
        return IrqAction::Ipi(irq);
    }
    if let Some(number) = virq {
        if number < VIRQ_COUNT {
            return IrqAction::TriggerVirq(number as u32);
        }
    }
    IrqAction::Unexpected(irq)
}

/// How often each request came in the kernel. Each counter starts again from zero
/// behind its last value.
#[derive(Debug)]
pub struct IrqCounters {
    counts: Vec<u64>,
    total: u64,
}

/// How often each counted request came, and how often any.
pub struct IrqCountsView {
    /// By request.
    pub counts: Seq<u64>,
    /// In all.
    pub total: u64,
}

impl View for IrqCounters {
    type V = IrqCountsView;

    closed spec fn view(&self) -> IrqCountsView {
        IrqCountsView { counts: self.counts@, total: self.total }
    }
}

/// A request comes before another in a report: it came more often, or as often
/// and has the lower number.
pub open spec fn comes_before(one: IrqCount, other: IrqCount) -> bool {
    one.count > other.count || (one.count == other.count && one.irq < other.irq)
}

/// The place that is left over in a report when too few requests came.
pub open spec fn left_over() -> IrqCount {
    IrqCount { irq: 0, count: 0 }
}

/// The first `used` places of `top` hold requests that came, as often as `counts`
/// says, the one that comes before others in front. The other places are left
/// over.
pub open spec fn lists(counts: Seq<u64>, top: Seq<IrqCount>, used: int) -> bool {
    &&& top.len() == REPORTED_IRQS
    &&& 0 <= used <= REPORTED_IRQS
    &&& forall|k: int|
        0 <= k < used ==> {
            &&& (#[trigger] top[k]).irq < counts.len()
            &&& top[k].count == counts[top[k].irq as int]
            &&& top[k].count > 0
        }
    &&& forall|k: int| used <= k < REPORTED_IRQS ==> #[trigger] top[k] == left_over()
    &&& forall|j: int, k: int|
        0 <= j < k < used ==> comes_before(#[trigger] top[j], #[trigger] top[k])
}

/// The request is among the first `used` places of `top`.
pub open spec fn is_listed(top: Seq<IrqCount>, used: int, irq: int) -> bool {
    exists|k: int| 0 <= k < used && (#[trigger] top[k]).irq == irq
}

/// `top` is the report on `counts`, with so many places used: a request that came and is not listed found
/// all places taken by requests that come before it.
pub open spec fn is_report(counts: Seq<u64>, top: Seq<IrqCount>, used: int) -> bool {
    &&& lists(counts, top, used)
    &&& forall|irq: int|
        0 <= irq < counts.len() && #[trigger] counts[irq] > 0 && !is_listed(top, used, irq) ==> {
            &&& used == REPORTED_IRQS
            &&& comes_before(
                top[REPORTED_IRQS - 1],
                IrqCount { irq: irq as u32, count: counts[irq] },
            )
        }
}

/// `top` is the report on `counts`.
pub open spec fn is_top(counts: Seq<u64>, top: Seq<IrqCount>) -> bool {
    exists|used: int| is_report(counts, top, used)
}

/// `top` with `entry` put in at `at`, and the last place dropped.
pub open spec fn put_in(top: Seq<IrqCount>, at: int, entry: IrqCount) -> Seq<IrqCount> {
    Seq::new(
        top.len(),
        |k: int|
            if k < at {
                top[k]
            } else if k == at {
                entry
            } else {
                top[k - 1]
            },
    )
}

/// A report stays one when the next request is put in at its place.
proof fn lemma_put_in(counts: Seq<u64>, top: Seq<IrqCount>, used: int, at: int, count: u64)
    requires
        is_report(counts, top, used),
        counts.len() < u32::MAX,
        0 <= at < REPORTED_IRQS,
        forall|k: int| at <= k < REPORTED_IRQS ==> (#[trigger] top[k]).count < count,
        at > 0 ==> top[at - 1].count >= count,
    ensures
        is_report(
            counts.push(count),
            put_in(top, at, IrqCount { irq: counts.len() as u32, count }),
            if used < REPORTED_IRQS {
                used + 1
            } else {
                used
            },
        ),
{
    let entry = IrqCount { irq: counts.len() as u32, count };
    let new_top = put_in(top, at, entry);
    let new_used = if used < REPORTED_IRQS {
        used + 1
    } else {
        used
    };
    let all = counts.push(count);
    assert(top[at].count < count);
    assert(at <= used);
    assert forall|k: int| 0 <= k < new_used implies {
        &&& (#[trigger] new_top[k]).irq < all.len()
        &&& new_top[k].count == all[new_top[k].irq as int]
        &&& new_top[k].count > 0
    } by {
        if k < at {
            assert(top[k].irq < counts.len());
        } else if k > at {
            assert(top[k - 1].irq < counts.len());
        }
    }
    assert forall|j: int, k: int| 0 <= j < k < new_used implies comes_before(
        #[trigger] new_top[j],
        #[trigger] new_top[k],
    ) by {
        if k < at {
            assert(comes_before(top[j], top[k]));
        } else if k == at {
            assert(top[j].irq < counts.len());
            if j < at - 1 {
                assert(comes_before(top[j], top[at - 1]));
            }
        } else if j < at {
            assert(comes_before(top[j], top[k - 1]));
        } else if j > at {
            assert(comes_before(top[j - 1], top[k - 1]));
        }
    }
    assert(lists(all, new_top, new_used));
    assert forall|irq: int|
        0 <= irq < all.len() && #[trigger] all[irq] > 0 && !is_listed(
            new_top,
            new_used,
            irq,
        ) implies {
        &&& new_used == REPORTED_IRQS
        &&& comes_before(
            new_top[REPORTED_IRQS - 1],
            IrqCount { irq: irq as u32, count: all[irq] },
        )
    } by {
        assert(new_top[at].irq == counts.len());
        assert(irq < counts.len());
        assert(all[irq] == counts[irq]);
        if is_listed(top, used, irq) {
            let k = choose|k: int| 0 <= k < used && (#[trigger] top[k]).irq == irq;
            if k < at {
                assert(new_top[k].irq == irq);
            } else if k + 1 < new_used {
                assert(new_top[k + 1].irq == irq);
            }
            assert(k == REPORTED_IRQS - 1);
        }
        if at < REPORTED_IRQS - 1 {
            assert(comes_before(top[REPORTED_IRQS - 2], top[REPORTED_IRQS - 1]));
        }
    }
}

/// A report stays one when the next request is left out because the last place
/// is taken by one that came as often.
proof fn lemma_left_out(counts: Seq<u64>, top: Seq<IrqCount>, used: int, count: u64)
    requires
        is_report(counts, top, used),
        counts.len() < u32::MAX,
        top[REPORTED_IRQS - 1].count >= count,
    ensures
        is_report(counts.push(count), top, used),
{
    let all = counts.push(count);
    assert forall|k: int| 0 <= k < used implies {
        &&& (#[trigger] top[k]).irq < all.len()
        &&& top[k].count == all[top[k].irq as int]
        &&& top[k].count > 0
    } by {
        assert(top[k].irq < counts.len());
    }
    assert(lists(all, top, used));
    assert forall|irq: int|
        0 <= irq < all.len() && #[trigger] all[irq] > 0 && !is_listed(top, used, irq) implies {
        &&& used == REPORTED_IRQS
        &&& comes_before(top[REPORTED_IRQS - 1], IrqCount { irq: irq as u32, count: all[irq] })
    } by {
        if irq < counts.len() {
            assert(counts[irq] > 0);
        }
    }
}

/// Puts a request in at its place, which is not behind the last.
fn put_in_place(top: &mut [IrqCount; REPORTED_IRQS], entry: IrqCount) -> (at: usize)
    requires
        old(top)@[REPORTED_IRQS - 1].count < entry.count,
        forall|j: int, k: int|
            0 <= j < k < REPORTED_IRQS ==> (#[trigger] old(top)@[j]).count >= (
            #[trigger] old(top)@[k]).count,
    ensures
        at < REPORTED_IRQS,
        final(top)@ == put_in(old(top)@, at as int, entry),
        forall|k: int| at <= k < REPORTED_IRQS ==> (#[trigger] old(top)@[k]).count < entry.count,
        at > 0 ==> old(top)@[at - 1].count >= entry.count,
{
    let ghost before = top@;
    let mut at: usize = REPORTED_IRQS - 1;
    top[at] = entry;
    assert(top@ =~= put_in(before, at as int, entry));
    while at > 0 && top[at - 1].count < entry.count
        invariant
            before == old(top)@,
            before.len() == REPORTED_IRQS,
            at < REPORTED_IRQS,
            top@ == put_in(before, at as int, entry),
            forall|k: int| at <= k < REPORTED_IRQS ==> (#[trigger] before[k]).count < entry.count,
        decreases at,
    {
        let other: IrqCount = top[at - 1];
        assert(other == before[at - 1]);
        top[at] = other;
        top[at - 1] = entry;
        at = at - 1;
        assert(top@ =~= put_in(before, at as int, entry));
    }
    at
}

impl IrqCounters {
    /// There is a counter for each request that is counted.
    pub closed spec fn wf(&self) -> bool {
        self.counts@.len() == COUNTED_IRQS
    }

    /// All counters at zero.
    pub fn new() -> (counters: Self)
        ensures
            counters.wf(),
            counters@.counts == Seq::new(COUNTED_IRQS as nat, |i: int| 0u64),
            counters@.total == 0,
    {
        let mut counts: Vec<u64> = Vec::new();
        while counts.len() < COUNTED_IRQS
            invariant
                counts@.len() <= COUNTED_IRQS,
                forall|i: int| 0 <= i < counts@.len() ==> #[trigger] counts@[i] == 0,
            decreases COUNTED_IRQS - counts@.len(),
        {
            counts.push(0);
        }
        assert(counts@ =~= Seq::new(COUNTED_IRQS as nat, |i: int| 0u64));
        IrqCounters { counts, total: 0 }
    }

    /// Lists the five requests that came most often.
    pub fn top_irqs(&self) -> (top: [IrqCount; REPORTED_IRQS])
        requires
            self.wf(),
        ensures
            is_top(self@.counts, top@),
    {
        let none = IrqCount { irq: 0, count: 0 };
        let mut top: [IrqCount; REPORTED_IRQS] = [none, none, none, none, none];
        let ghost mut used: int = 0;
        let mut i: usize = 0;
        while i < self.counts.len()
            invariant
                self.wf(),
                i <= self.counts@.len(),
                is_report(self.counts@.take(i as int), top@, used),
            decreases self.counts@.len() - i,
        {
            let count: u64 = self.counts[i];
            let ghost seen = self.counts@.take(i as int);
            assert(self.counts@.take(i + 1) =~= seen.push(count));
            if count > top[REPORTED_IRQS - 1].count {
                let ghost before = top@;
                assert forall|j: int, k: int| 0 <= j < k < REPORTED_IRQS implies (
                #[trigger] top@[j]).count >= (#[trigger] top@[k]).count by {
                    if k < used {
                        assert(comes_before(top@[j], top@[k]));
                    }
                }
                let at: usize = put_in_place(&mut top, IrqCount { irq: i as u32, count });
                proof {
                    lemma_put_in(seen, before, used, at as int, count);
                    used = if used < REPORTED_IRQS {
                        used + 1
                    } else {
                        used
                    };
                }
            } else {
                proof {
                    lemma_left_out(seen, top@, used, count);
                }
            }
            i = i + 1;
        }
        assert(self.counts@.take(self.counts@.len() as int) =~= self.counts@);
        assert(is_report(self@.counts, top@, used));
        top
    }

    /// Counts a request that came in the kernel, and decides where it goes. Every
    /// hundred thousandth gives a report.
    pub fn irq_at_el1(&mut self, irq: u32, virq: Option<usize>) -> (out: (
        IrqAction,
        Option<[IrqCount; REPORTED_IRQS]>,
    ))
        requires
            old(self).wf(),
        ensures
            final(self).wf(),
            final(self)@.counts == (if irq < COUNTED_IRQS {
                old(self)@.counts.update(
                    irq as int,
                    counter::counted_up(old(self)@.counts[irq as int]),
                )
            } else {
                old(self)@.counts
            }),
            final(self)@.total == counter::counted_up(old(self)@.total),
            out.0 == routed(irq, virq),
            out.1 is Some <==> old(self)@.total % IRQS_PER_REPORT == 0,
            out.1 is Some <==> old(self)@.total % 100_000 == 0,
            forall|i: int|
                0 <= i < 256 && i != irq ==> #[trigger] final(self)@.counts[i] == old(
                    self,
                )@.counts[i],
            irq < 256 ==> final(self)@.counts[irq as int] == (old(self)@.counts[irq as int] + 1)
                % 0x1_0000_0000_0000_0000,
            final(self)@.total == (old(self)@.total + 1) % 0x1_0000_0000_0000_0000,
            out.1 matches Some(top) ==> is_top(final(self)@.counts, top@),
    {
        let index: usize = irq as usize;
        if index < COUNTED_IRQS {
            let counted: u64 = self.counts[index].wrapping_add(1);
            self.counts[index] = counted;
        }
        let total: u64 = self.total;
        self.total = total.wrapping_add(1);
        let report: Option<[IrqCount; REPORTED_IRQS]> = if total % IRQS_PER_REPORT == 0 {
            let top: [IrqCount; REPORTED_IRQS] = self.top_irqs();
            Some(top)
        } else {
            None
        };
        (irq_at_el0(irq, virq), report)
    }
}

/// Announces a request to user space and ends it at the controller.
pub fn trigger(irq: u32) -> (trigger: IrqTrigger)
    requires
        irq < 256,
    ensures
        trigger.announce == irq,
        trigger.eoi == irq,
{
    IrqTrigger { announce: irq as u8, eoi: irq }
}

/// The first list of two holds nothing at a place that the second does not.
proof fn lemma_same_place(
    counts: Seq<u64>,
    one: Seq<IrqCount>,
    one_used: int,
    other: Seq<IrqCount>,
    other_used: int,
    at: int,
)
    requires
        is_report(counts, one, one_used),
        is_report(counts, other, other_used),
        counts.len() <= u32::MAX,
        0 <= at < one_used,
        forall|k: int| 0 <= k < at ==> #[trigger] one[k] == other[k],
        at < other_used ==> one[at] != other[at],
    ensures
        at < other_used,
        comes_before(other[at], one[at]),
{
    let irq = one[at].irq as int;
    assert(counts[irq] > 0);
    if is_listed(other, other_used, irq) {
        let k = choose|k: int| 0 <= k < other_used && (#[trigger] other[k]).irq == irq;
        assert(other[k] == one[at]);
        if k < at {
            assert(comes_before(one[k], one[at]));
        } else {
            assert(comes_before(other[at], other[k]));
        }
    } else if at < REPORTED_IRQS - 1 {
        assert(comes_before(other[at], other[REPORTED_IRQS - 1]));
    }
}

/// Two reports agree on the first places.
proof fn lemma_same_front(
    counts: Seq<u64>,
    one: Seq<IrqCount>,
    one_used: int,
    other: Seq<IrqCount>,
    other_used: int,
    n: int,
)
    requires
        is_report(counts, one, one_used),
        is_report(counts, other, other_used),
        counts.len() <= u32::MAX,
        0 <= n <= REPORTED_IRQS,
    ensures
        forall|k: int| 0 <= k < n ==> #[trigger] one[k] == other[k],
    decreases n,
{
    if n > 0 {
        lemma_same_front(counts, one, one_used, other, other_used, n - 1);
        if one[n - 1] != other[n - 1] {
            if n - 1 < one_used {
                lemma_same_place(counts, one, one_used, other, other_used, n - 1);
            }
            if n - 1 < other_used {
                lemma_same_place(counts, other, other_used, one, one_used, n - 1);
            }
        }
    }
}

/// There is one report on given counts.
pub proof fn lemma_report_is_unique(counts: Seq<u64>, one: Seq<IrqCount>, other: Seq<IrqCount>)
    requires
        is_top(counts, one),
        is_top(counts, other),
        counts.len() <= u32::MAX,
    ensures
        one == other,
{
    let one_used = choose|used: int| is_report(counts, one, used);
    let other_used = choose|used: int| is_report(counts, other, used);
    lemma_same_front(counts, one, one_used, other, other_used, REPORTED_IRQS as int);
    assert(one =~= other);
}

/// Every request goes somewhere: to the messages if it is one, and else to the
/// virtual request that it stands for, if there is one in range.
pub proof fn lemma_routing(irq: u32, virq: Option<usize>)
    ensures
        routed(irq, virq) is Ipi <==> irq < SGI_COUNT,
        routed(irq, virq) is TriggerVirq <==> irq >= SGI_COUNT && (virq matches Some(number)
            && number < VIRQ_COUNT),
        routed(irq, virq) matches IrqAction::TriggerVirq(number) ==> virq == Some(
            number as usize,
        ),
{
}

/// Where each request goes: the first sixteen are messages under their own number,
/// the others go to the virtual request that they stand for if that is one of 1024,
/// and what is left is unexpected.
pub proof fn lemma_where_requests_go(irq: u32, virq: Option<usize>)
    ensures
        irq < 16 ==> routed(irq, virq) == IrqAction::Ipi(irq),
        irq >= 16 ==> (virq matches Some(number) ==> number < 1024 ==> routed(irq, virq)
            == IrqAction::TriggerVirq(number as u32)),
        irq >= 16 ==> (virq matches Some(number) ==> number >= 1024 ==> routed(irq, virq)
            == IrqAction::Unexpected(irq)),
        irq >= 16 && virq is None ==> routed(irq, virq) == IrqAction::Unexpected(irq),
{
}

/// What a report holds: five places, those in use with requests that came and how
/// often, the most frequent in front and the lower number in front of as frequent a
/// one; and each request that came, unless five others come before it.
pub proof fn lemma_what_a_report_holds(counts: Seq<u64>, top: Seq<IrqCount>)
    requires
        is_top(counts, top),
        counts.len() <= u32::MAX,
    ensures
        top.len() == 5,
        forall|k: int|
            0 <= k < 5 && (#[trigger] top[k]).count > 0 ==> top[k].irq < counts.len()
                && top[k].count == counts[top[k].irq as int],
        forall|k: int| 0 <= k < 5 && (#[trigger] top[k]).count == 0 ==> top[k].irq == 0,
        forall|j: int, k: int|
            0 <= j < k < 5 ==> (#[trigger] top[j]).count >= (#[trigger] top[k]).count,
        forall|j: int, k: int|
            0 <= j < k < 5 && (#[trigger] top[j]).count == (#[trigger] top[k]).count
                && top[k].count > 0 ==> top[j].irq < top[k].irq,
        forall|irq: int|
            0 <= irq < counts.len() && #[trigger] counts[irq] > 0 && (forall|k: int|
                0 <= k < 5 ==> (#[trigger] top[k]).irq != irq || top[k].count != counts[irq])
                ==> top[4].count > counts[irq] || top[4].count == counts[irq] && top[4].irq < irq,
{
    let used = choose|used: int| is_report(counts, top, used);
    assert(lists(counts, top, used));
    assert forall|j: int, k: int| 0 <= j < k < used implies comes_before(
        #[trigger] top[j],
        #[trigger] top[k],
    ) by {}
    assert forall|irq: int|
        0 <= irq < counts.len() && #[trigger] counts[irq] > 0 && (forall|k: int|
            0 <= k < 5 ==> (#[trigger] top[k]).irq != irq || top[k].count
                != counts[irq]) implies top[4].count > counts[irq] || top[4].count == counts[irq]
        && top[4].irq < irq by {
        if is_listed(top, used, irq) {
            let k = choose|k: int| 0 <= k < used && (#[trigger] top[k]).irq == irq;
            assert(top[k].count == counts[irq]);
        }
    }
}

} // verus!
