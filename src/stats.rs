use vstd::prelude::*;

verus! {

/// One process as sampled from the system: its id, its parent's id and its
/// resident memory in bytes.
#[derive(Clone, Copy, Debug, PartialEq, Eq, Structural)]
pub struct ProcessSample {
    pub pid: u32,
    pub parent: Option<u32>,
    pub memory: u64,
}

/// Memory of the host process and of its child processes, in whole MiB.
#[derive(Clone, Copy, Debug, PartialEq, Eq, Structural)]
pub struct MemoryUsage {
    pub main_mib: u128,
    pub renderer_mib: u128,
    pub total_mib: u128,
}

pub const MIB: u128 = 1048576;

/// The memory of the samples whose parent is `pid`, in bytes.
pub open spec fn children_memory(samples: Seq<ProcessSample>, pid: u32) -> int
    decreases samples.len(),
{
    if samples.len() == 0 {
        0
    } else {
        children_memory(samples.drop_last(), pid) + if samples.last().parent == Some(pid) {
            samples.last().memory as int
        } else {
            0
        }
    }
}

/// The host's own memory, the memory of its direct children, and both
/// together, each rounded down to whole MiB.
pub fn memory_usage(pid: u32, own_memory: u64, samples: &Vec<ProcessSample>) -> (r: MemoryUsage)
    ensures
        r.main_mib == own_memory as int / MIB as int,
        r.renderer_mib == children_memory(samples@, pid) / MIB as int,
        r.total_mib == (own_memory as int + children_memory(samples@, pid)) / MIB as int,
{
    let n = samples.len();
    let mut sum: u128 = 0;
    let mut i: usize = 0;
    while i < n
        invariant
            n == samples@.len(),
            i <= n,
            sum == children_memory(samples@.subrange(0, i as int), pid),
            sum <= i as int * u64::MAX as int,
        decreases n - i,
    {
        proof {
            assert(samples@.subrange(0, i + 1).drop_last() =~= samples@.subrange(0, i as int));
            assert(samples@.subrange(0, i + 1).last() == samples@[i as int]);
            assert((i + 1) as int * u64::MAX as int == i as int * u64::MAX as int + u64::MAX as int) by (nonlinear_arith);
            assert(i as int * u64::MAX as int <= usize::MAX as int * u64::MAX as int) by (nonlinear_arith)
                requires i as int <= usize::MAX as int;
        }
        let s = samples[i];
        if s.parent == Some(pid) {
            sum = sum + s.memory as u128;
        }
        i = i + 1;
    }
    proof {
        assert(samples@.subrange(0, samples@.len() as int) =~= samples@);
        assert(sum as int <= usize::MAX as int * u64::MAX as int) by (nonlinear_arith)
            requires sum as int <= n as int * u64::MAX as int, n as int <= usize::MAX as int;
    }
    let own = own_memory as u128;
    MemoryUsage { main_mib: own / MIB, renderer_mib: sum / MIB, total_mib: (own + sum) / MIB }
}

} // verus!
