use vstd::prelude::*;

use crate::error::PlotError;
use crate::parse::GpuSelector;
use crate::partition::{share_total, total_share};
use crate::sizing::{chunk_nonces, sizing_fails, spec_chunk_nonces};

verus! {

/// The configuration of one plot file's run, made once and never changed.
pub struct PlotterTask {
    pub numeric_id: u64,
    pub start_nonce: u64,
    pub nonces: u64,
    pub output_path: String,
    /// Memory budget in bytes; 0 leaves the chunk size to the default.
    pub mem: u64,
    pub cpu_threads: u8,
    pub gpus: Vec<GpuSelector>,
    pub direct_io: bool,
    pub async_io: bool,
    pub quiet: bool,
    pub benchmark: bool,
    pub zcb: bool,
}

/// What a task resolves to before the run starts: the shape of the
/// pipeline, so that no flag is looked at again while it runs.
pub struct RunPlan {
    pub chunk_nonces: u64,
    pub chunks: u64,
    /// Two buffers, hashing and writing at once.
    pub overlapped: bool,
    /// Writes bypass the page cache and keep to the transfer unit.
    pub aligned: bool,
    /// Chunks reach storage (off in benchmark mode).
    pub writes: bool,
    /// Work shares: the CPU workers first, then each GPU's cores.
    pub shares: Vec<u32>,
}

/// The backends' shares: the CPU thread count, then each GPU's cores.
pub open spec fn backend_shares(cpu_threads: u8, gpus: Seq<GpuSelector>) -> Seq<u32> {
    seq![cpu_threads as u32] + gpus.map_values(|g: GpuSelector| g.cores)
}

/// `n` nonces in chunks of `c`: the number of chunks, the last possibly
/// short.
pub open spec fn chunk_count(n: int, c: int) -> int {
    n / c + if n % c == 0 {
        0int
    } else {
        1int
    }
}

/// Whether a task cannot be planned: sizing refuses it, or no backend can
/// make progress.
pub open spec fn plan_fails(task: &PlotterTask, unit: u64) -> bool {
    let shares = backend_shares(task.cpu_threads, task.gpus@);
    ||| sizing_fails(
        task.mem as int,
        if task.async_io { 2 } else { 1 },
        task.nonces as int,
        task.direct_io,
        unit as int,
    )
    ||| total_share(shares) == 0
    ||| total_share(shares) > u64::MAX
}

/// Sizing, resolved once: the chunk size from the budget and the flags, the
/// chunk count, and the backends' shares.
pub fn plan_run(task: &PlotterTask, unit: u64) -> (r: Result<RunPlan, PlotError>)
    ensures
        r is Err <==> plan_fails(task, unit),
        r matches Err(e) ==> e == PlotError::Configuration,
        r matches Ok(p) ==> {
            &&& p.chunk_nonces > 0
            &&& spec_chunk_nonces(
                task.mem as int,
                if task.async_io { 2 } else { 1 },
                task.nonces as int,
                task.direct_io,
                unit as int,
                p.chunk_nonces as int,
            )
            &&& p.chunks == chunk_count(task.nonces as int, p.chunk_nonces as int)
            &&& p.overlapped == task.async_io
            &&& p.aligned == task.direct_io
            &&& p.writes == !task.benchmark
            &&& p.shares@ == backend_shares(task.cpu_threads, task.gpus@)
        },
{
    let mut shares: Vec<u32> = Vec::new();
    shares.push(task.cpu_threads as u32);
    let mut k: usize = 0;
    while k < task.gpus.len()
        invariant
            k <= task.gpus@.len(),
            shares@ == seq![task.cpu_threads as u32] + task.gpus@.subrange(0, k as int).map_values(
                |g: GpuSelector| g.cores,
            ),
        decreases task.gpus@.len() - k,
    {
        shares.push(task.gpus[k].cores);
        proof {
            assert(task.gpus@.subrange(0, k + 1).map_values(|g: GpuSelector| g.cores)
                =~= task.gpus@.subrange(0, k as int).map_values(|g: GpuSelector| g.cores).push(
                task.gpus@[k as int].cores,
            ));
        }
        k = k + 1;
    }
    proof {
        assert(task.gpus@.subrange(0, task.gpus@.len() as int) =~= task.gpus@);
    }
    let c = match chunk_nonces(task.mem, task.async_io, task.nonces, task.direct_io, unit) {
        Ok(c) => c,
        Err(e) => {
            return Err(e);
        },
    };
    let total = share_total(&shares);
    if total == 0 || total > u64::MAX as u128 {
        return Err(PlotError::Configuration);
    }
    proof {
        let n = task.nonces as int;
        if c == 1 {
            assert(n % 1 == 0);
        } else {
            vstd::arithmetic::div_mod::lemma_div_is_ordered_by_denominator(n, 2, c as int);
            assert(n / 2 < u64::MAX);
        }
    }
    let chunks = task.nonces / c + if task.nonces % c == 0 {
        0
    } else {
        1
    };
    Ok(
        RunPlan {
            chunk_nonces: c,
            chunks,
            overlapped: task.async_io,
            aligned: task.direct_io,
            writes: !task.benchmark,
            shares,
        },
    )
}

} // verus!
