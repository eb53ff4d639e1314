//! Logical CPU numbers and sets of them.

use vstd::prelude::*;

verus! {

/// Number that the kernel gives to a CPU.
#[derive(Clone, Copy, Debug, PartialEq, Eq, Structural)]
pub struct LogicalCpuId {
    /// The number.
    pub id: u32,
}

impl View for LogicalCpuId {
    type V = u32;

    open spec fn view(&self) -> u32 {
        self.id
    }
}

impl LogicalCpuId {
    /// The CPU with the given number.
    pub fn new(id: u32) -> (cpu: Self)
        ensures
            cpu@ == id,
    {
        LogicalCpuId { id }
    }

    /// The number of this CPU.
    pub fn get(self) -> (id: u32)
        ensures
            id == self@,
    {
        self.id
    }
}

/// A set of CPUs.
#[derive(Clone, Debug)]
pub struct LogicalCpuSet {
    ids: Vec<u32>,
}

impl View for LogicalCpuSet {
    type V = Set<u32>;

    closed spec fn view(&self) -> Set<u32> {
        self.ids@.to_set()
    }
}

impl LogicalCpuSet {
    /// The set without a CPU.
    pub fn empty() -> (set: Self)
        ensures
            set@ == Set::<u32>::empty(),
    {
        let set = LogicalCpuSet { ids: Vec::new() };
        assert(set@ =~= Set::<u32>::empty());
        set
    }

    /// Adds a CPU to the set.
    pub fn insert(&mut self, cpu: LogicalCpuId)
        ensures
            final(self)@ == old(self)@.insert(cpu@),
    {
        let ghost before = self.ids@;
        self.ids.push(cpu.id);
        proof {
            assert(self.ids@.last() == cpu.id);
            assert forall|c: u32| self.ids@.contains(c) implies before.contains(c) || c == cpu.id by {
                let i = choose|i: int| 0 <= i < self.ids@.len() && self.ids@[i] == c;
                if i < before.len() {
                    assert(before[i] == c);
                }
            }
            assert forall|c: u32| before.contains(c) implies self.ids@.contains(c) by {
                let i = choose|i: int| 0 <= i < before.len() && before[i] == c;
                assert(self.ids@[i] == c);
            }
            assert(self@ =~= before.to_set().insert(cpu@));
        }
    }

    /// Tests whether a CPU is in the set.
    pub fn contains(&self, cpu: LogicalCpuId) -> (yes: bool)
        ensures
            yes == self@.contains(cpu@),
    {
        let mut i: usize = 0;
        while i < self.ids.len()
            invariant
                i <= self.ids@.len(),
                forall|j: int| 0 <= j < i ==> self.ids@[j] != cpu.id,
            decreases self.ids@.len() - i,
        {
            if self.ids[i] == cpu.id {
                assert(self.ids@.contains(cpu.id));
                return true;
            }
            i = i + 1;
        }
        false
    }
}

} // verus!
