//! Compositor state: initialization, statistics and the sharing out of
//! stripes among the CPUs.

use vstd::prelude::*;
use super::config::{DEFAULT_STRIPE_HEIGHT, MIN_ROWS_PER_WORKER, NUMA_NO_NODE};
use super::types::{CompositorStats, CpuWorkState};

verus! {

/// How a composition is carried out: one pass over all rows, or stripes
/// of `stripe_height` rows that the CPUs claim.
#[derive(Clone, Copy, PartialEq, Eq, Structural)]
pub enum ComposePlan {
    Single,
    Striped { stripe_height: usize, total_stripes: usize },
}

/// Stripes of `sh` rows that cover `rows` rows.
pub open spec fn stripes_for(rows: int, sh: int) -> int {
    (rows + sh - 1) / sh
}

/// Compositor bookkeeping shared by the CPUs.
pub struct CompositorState {
    initialized: bool,
    worker_count: usize,
    total_compositions: u64,
    composition_gen: u64,
    next_stripe: usize,
    total_stripes: usize,
    completed: usize,
    in_progress: bool,
    cpus: Vec<CpuWorkState>,
}

/// What the compositor state holds.
pub struct CompositorView {
    pub initialized: bool,
    pub worker_count: usize,
    pub total_compositions: u64,
    pub composition_gen: u64,
    pub next_stripe: usize,
    pub total_stripes: usize,
    pub completed: usize,
    pub in_progress: bool,
}

impl CompositorState {
    pub closed spec fn view(&self) -> CompositorView {
        CompositorView {
            initialized: self.initialized,
            worker_count: self.worker_count,
            total_compositions: self.total_compositions,
            composition_gen: self.composition_gen,
            next_stripe: self.next_stripe,
            total_stripes: self.total_stripes,
            completed: self.completed,
            in_progress: self.in_progress,
        }
    }

    /// Per-CPU work states.
    pub closed spec fn cpu(&self, i: int) -> CpuWorkState {
        self.cpus@[i]
    }

    pub closed spec fn cpu_count(&self) -> nat {
        self.cpus@.len()
    }

    /// The worker count leaves room to compute stripe counts.
    pub closed spec fn wf(&self) -> bool {
        self.worker_count <= 0x1000_0000
    }

    /// An uninitialized compositor with one worker and `max_cpus` CPU
    /// work states.
    pub fn new(max_cpus: usize) -> (r: Self)
        ensures
            r.wf(),
            r.view() == (CompositorView {
                initialized: false,
                worker_count: 1,
                total_compositions: 0,
                composition_gen: 0,
                next_stripe: 0,
                total_stripes: 0,
                completed: 0,
                in_progress: false,
            }),
            r.cpu_count() == max_cpus,
    {
        let mut cpus: Vec<CpuWorkState> = Vec::new();
        let mut i: usize = 0;
        while i < max_cpus
            invariant
                i <= max_cpus,
                cpus@.len() == i,
            decreases max_cpus - i,
        {
            cpus.push(CpuWorkState::new());
            i = i + 1;
        }
        CompositorState {
            initialized: false,
            worker_count: 1,
            total_compositions: 0,
            composition_gen: 0,
            next_stripe: 0,
            total_stripes: 0,
            completed: 0,
            in_progress: false,
            cpus,
        }
    }
}

/// The compositor state after `init` with `online_cpus` CPUs: once
/// initialized, it stays as it is.
pub open spec fn init_view(o: CompositorView, online_cpus: usize) -> CompositorView {
    if o.initialized {
        o
    } else {
        CompositorView { initialized: true, worker_count: online_cpus, ..o }
    }
}

/// Law: one worker until the compositor is initialized; after `init` the
/// workers are the online CPUs it was given, and a second `init` changes
/// nothing.
pub proof fn law_worker_count(a: CompositorView, n1: usize, n2: usize)
    requires
        !a.initialized,
        a.worker_count == 1,
    ensures
        a.worker_count == 1,
        init_view(a, n1).initialized,
        init_view(a, n1).worker_count == n1,
        init_view(init_view(a, n1), n2) == init_view(a, n1),
{
}

/// Initialize the parallel compositor with the online CPUs
///
/// Does nothing once initialized.  The work state of each online CPU is
/// reset; when NUMA is set up, `numa_nodes[i]` is CPU `i`'s node.
pub fn init(st: &mut CompositorState, online_cpus: usize, numa_ready: bool, numa_nodes: &[u32])
    requires
        old(st).wf(),
        online_cpus <= 0x1000_0000,
    ensures
        final(st).view() == init_view(old(st).view(), online_cpus),
        final(st).wf(),
        final(st).cpu_count() == old(st).cpu_count(),
        old(st).view().initialized ==> final(st).view() == old(st).view() && forall|i: int|
            0 <= i < old(st).cpu_count() ==> #[trigger] final(st).cpu(i) == old(st).cpu(i),
        !old(st).view().initialized ==> {
            &&& final(st).view() == (CompositorView {
                initialized: true,
                worker_count: online_cpus,
                ..old(st).view()
            })
            &&& forall|i: int|
                0 <= i < old(st).cpu_count() ==> {
                    let c = #[trigger] final(st).cpu(i);
                    let o = old(st).cpu(i);
                    if i < online_cpus {
                        &&& c.current_gen == 0 && c.stripes_completed == 0 && !c.working
                        &&& c.numa_node == if numa_ready && i < numa_nodes@.len() {
                            numa_nodes@[i]
                        } else {
                            o.numa_node
                        }
                    } else {
                        c == o
                    }
                }
        },
{
    if st.initialized {
        return;
    }
    st.worker_count = online_cpus;
    let n = if online_cpus < st.cpus.len() {
        online_cpus
    } else {
        st.cpus.len()
    };
    let mut i: usize = 0;
    while i < n
        invariant
            i <= n <= st.cpus@.len(),
            n == online_cpus || n == st.cpus@.len(),
            n <= online_cpus,
            st.cpus@.len() == old(st).cpus@.len(),
            st.view() == (CompositorView { worker_count: online_cpus, ..old(st).view() }),
            online_cpus <= 0x1000_0000,
            forall|k: int|
                0 <= k < st.cpus@.len() ==> {
                    let c = #[trigger] st.cpus@[k];
                    let o = old(st).cpus@[k];
                    if k < i {
                        &&& c.current_gen == 0 && c.stripes_completed == 0 && !c.working
                        &&& c.numa_node == if numa_ready && k < numa_nodes@.len() {
                            numa_nodes@[k]
                        } else {
                            o.numa_node
                        }
                    } else {
                        c == o
                    }
                },
        decreases n - i,
    {
        let node = if numa_ready && i < numa_nodes.len() {
            numa_nodes[i]
        } else {
            st.cpus[i].numa_node
        };
        st.cpus.set(i, CpuWorkState { current_gen: 0, stripes_completed: 0, working: false, numa_node: node });
        i = i + 1;
    }
    st.initialized = true;
}

/// Check if compositor is initialized
pub fn is_initialized(st: &CompositorState) -> (r: bool)
    ensures
        r == st.view().initialized,
{
    st.initialized
}

/// Get number of available workers
pub fn worker_count(st: &CompositorState) -> (r: usize)
    ensures
        r == st.view().worker_count,
{
    st.worker_count
}

/// Get compositor statistics
pub fn stats(st: &CompositorState) -> (r: CompositorStats)
    ensures
        r.total_compositions == st.view().total_compositions,
        r.last_worker_count == st.view().worker_count,
        r.last_stripes == st.view().total_stripes,
        r.parallel_enabled == (st.view().worker_count > 1),
{
    CompositorStats {
        total_compositions: st.total_compositions,
        last_worker_count: st.worker_count,
        last_stripes: st.total_stripes,
        parallel_enabled: st.worker_count > 1,
    }
}

/// Reset compositor statistics for benchmarking: the composition count
/// and the stripe count of each online CPU.
pub fn reset_stats(st: &mut CompositorState, online_cpus: usize)
    ensures
        final(st).view() == (CompositorView { total_compositions: 0, ..old(st).view() }),
        final(st).cpu_count() == old(st).cpu_count(),
        forall|i: int|
            0 <= i < old(st).cpu_count() ==> #[trigger] final(st).cpu(i) == if i < online_cpus {
                CpuWorkState { stripes_completed: 0, ..old(st).cpu(i) }
            } else {
                old(st).cpu(i)
            },
{
    st.total_compositions = 0;
    let n = if online_cpus < st.cpus.len() {
        online_cpus
    } else {
        st.cpus.len()
    };
    let mut i: usize = 0;
    while i < n
        invariant
            i <= n <= st.cpus@.len(),
            n == online_cpus || n == st.cpus@.len(),
            n <= online_cpus,
            st.cpus@.len() == old(st).cpus@.len(),
            st.view() == (CompositorView { total_compositions: 0, ..old(st).view() }),
            forall|k: int|
                0 <= k < st.cpus@.len() ==> #[trigger] st.cpus@[k] == if k < i {
                    CpuWorkState { stripes_completed: 0, ..old(st).cpus@[k] }
                } else {
                    old(st).cpus@[k]
                },
        decreases n - i,
    {
        let c = &st.cpus[i];
        let reset = CpuWorkState {
            current_gen: c.current_gen,
            stripes_completed: 0,
            working: c.working,
            numa_node: c.numa_node,
        };
        st.cpus.set(i, reset);
        i = i + 1;
    }
}

/// Mark CPU `cpu` as working or idle; a CPU without a work state is
/// left alone.
pub fn set_cpu_working(st: &mut CompositorState, cpu: usize, working: bool)
    ensures
        final(st).view() == old(st).view(),
        final(st).cpu_count() == old(st).cpu_count(),
        forall|i: int|
            0 <= i < old(st).cpu_count() ==> #[trigger] final(st).cpu(i) == if i == cpu {
                CpuWorkState { working, ..old(st).cpu(i) }
            } else {
                old(st).cpu(i)
            },
{
    if cpu < st.cpus.len() {
        let c = &st.cpus[cpu];
        let next = CpuWorkState {
            current_gen: c.current_gen,
            stripes_completed: c.stripes_completed,
            working,
            numa_node: c.numa_node,
        };
        st.cpus.set(cpu, next);
    }
}

/// Add `n` stripes to the count of CPU `cpu`, wrapping around as a
/// counter does; a CPU without a work state is left alone.
pub fn add_cpu_stripes(st: &mut CompositorState, cpu: usize, n: usize)
    ensures
        final(st).view() == old(st).view(),
        final(st).cpu_count() == old(st).cpu_count(),
        forall|i: int|
            0 <= i < old(st).cpu_count() ==> #[trigger] final(st).cpu(i) == if i == cpu {
                CpuWorkState { stripes_completed: old(st).cpu(i).stripes_completed.wrapping_add(n), ..old(st).cpu(i) }
            } else {
                old(st).cpu(i)
            },
{
    if cpu < st.cpus.len() {
        let c = &st.cpus[cpu];
        let next = CpuWorkState {
            current_gen: c.current_gen,
            stripes_completed: c.stripes_completed.wrapping_add(n),
            working: c.working,
            numa_node: c.numa_node,
        };
        st.cpus.set(cpu, next);
    }
}

/// Request a stripe of work to process: its index and its first and end
/// rows, or `None` when every stripe is taken.
pub fn claim_work_stripe(st: &mut CompositorState, stripe_height: usize, total_rows: usize) -> (r: Option<(usize, usize, usize)>)
    requires
        stripe_height > 0,
        total_rows + stripe_height <= usize::MAX,
    ensures
        ({
            let next = old(st).view().next_stripe;
            if next >= stripes_for(total_rows as int, stripe_height as int) {
                r is None && final(st).view() == old(st).view()
            } else {
                &&& r == Some(
                    (
                        next,
                        (next * stripe_height) as usize,
                        (if (next + 1) * stripe_height <= total_rows {
                            (next + 1) * stripe_height
                        } else {
                            total_rows as int
                        }) as usize,
                    ),
                )
                &&& final(st).view() == (CompositorView {
                    next_stripe: (next + 1) as usize,
                    ..old(st).view()
                })
            }
        }),
        final(st).cpu_count() == old(st).cpu_count(),
        forall|i: int| 0 <= i < old(st).cpu_count() ==> #[trigger] final(st).cpu(i) == old(st).cpu(i),
{
    let total_stripes = (total_rows + stripe_height - 1) / stripe_height;
    let current = st.next_stripe;
    if current >= total_stripes {
        return None;
    }
    proof {
        assert((current + 1) * stripe_height <= total_rows + stripe_height) by (nonlinear_arith)
            requires
                current < total_stripes,
                total_stripes == (total_rows + stripe_height - 1) / (stripe_height as int),
                stripe_height > 0,
        ;
        assert(current * stripe_height + stripe_height == (current + 1) * stripe_height) by (nonlinear_arith);
    }
    st.next_stripe = current + 1;
    let start_row = current * stripe_height;
    let end = (current + 1) * stripe_height;
    let end_row = if end <= total_rows {
        end
    } else {
        total_rows
    };
    Some((current, start_row, end_row))
}

/// Mark a stripe as completed
pub fn complete_stripe(st: &mut CompositorState)
    ensures
        final(st).view() == (CompositorView {
            completed: old(st).view().completed.wrapping_add(1),
            ..old(st).view()
        }),
        final(st).cpu_count() == old(st).cpu_count(),
        forall|i: int| 0 <= i < old(st).cpu_count() ==> #[trigger] final(st).cpu(i) == old(st).cpu(i),
{
    st.completed = st.completed.wrapping_add(1);
}

/// Decide a composition of `height` rows and record its start
///
/// Without initialization, or with one worker or fewer than
/// `MIN_ROWS_PER_WORKER` rows, all rows are composed in one pass (counted,
/// if initialized).  Otherwise the rows are cut into stripes, aiming at
/// eight per worker, of between `MIN_ROWS_PER_WORKER` and
/// `DEFAULT_STRIPE_HEIGHT` rows, and the stripe counters are reset for the
/// CPUs to claim; `finish_compose` counts the composition.
pub fn compose(st: &mut CompositorState, height: usize) -> (r: ComposePlan)
    requires
        old(st).wf(),
    ensures
        final(st).wf(),
        final(st).cpu_count() == old(st).cpu_count(),
        forall|i: int| 0 <= i < old(st).cpu_count() ==> #[trigger] final(st).cpu(i) == old(st).cpu(i),
        ({
            let o = old(st).view();
            if !o.initialized {
                r == ComposePlan::Single && final(st).view() == o
            } else if o.worker_count <= 1 || height < MIN_ROWS_PER_WORKER {
                r == ComposePlan::Single && final(st).view() == (CompositorView {
                    total_compositions: o.total_compositions.wrapping_add(1),
                    ..o
                })
            } else {
                let q = height as int / (o.worker_count * 8);
                let sh = if q < MIN_ROWS_PER_WORKER {
                    MIN_ROWS_PER_WORKER as int
                } else if q > DEFAULT_STRIPE_HEIGHT {
                    DEFAULT_STRIPE_HEIGHT as int
                } else {
                    q
                };
                let total = stripes_for(height as int, sh);
                &&& r == ComposePlan::Striped { stripe_height: sh as usize, total_stripes: total as usize }
                &&& final(st).view() == (CompositorView {
                    next_stripe: 0,
                    total_stripes: total as usize,
                    completed: 0,
                    in_progress: true,
                    composition_gen: o.composition_gen.wrapping_add(1),
                    ..o
                })
            }
        }),
{
    if !st.initialized {
        return ComposePlan::Single;
    }
    let workers = st.worker_count;
    if workers <= 1 || height < MIN_ROWS_PER_WORKER {
        st.total_compositions = st.total_compositions.wrapping_add(1);
        return ComposePlan::Single;
    }
    let q = height / (workers * 8);
    let stripe_height = if q < MIN_ROWS_PER_WORKER {
        MIN_ROWS_PER_WORKER
    } else if q > DEFAULT_STRIPE_HEIGHT {
        DEFAULT_STRIPE_HEIGHT
    } else {
        q
    };
    proof {
        assert(height / stripe_height <= height / 8) by (nonlinear_arith)
            requires
                stripe_height >= 8,
        ;
    }
    let total_stripes = height / stripe_height + if height % stripe_height != 0 {
        1
    } else {
        0
    };
    proof {
        assert(total_stripes == (height + stripe_height - 1) / (stripe_height as int)) by (nonlinear_arith)
            requires
                stripe_height > 0,
                total_stripes == height as int / (stripe_height as int) + if height as int % (stripe_height as int) != 0 {
                    1int
                } else {
                    0int
                },
        ;
    }
    st.next_stripe = 0;
    st.total_stripes = total_stripes;
    st.completed = 0;
    st.in_progress = true;
    st.composition_gen = st.composition_gen.wrapping_add(1);
    ComposePlan::Striped { stripe_height, total_stripes }
}

/// Record the end of a striped composition.
pub fn finish_compose(st: &mut CompositorState)
    ensures
        final(st).view() == (CompositorView {
            in_progress: false,
            total_compositions: old(st).view().total_compositions.wrapping_add(1),
            ..old(st).view()
        }),
        final(st).cpu_count() == old(st).cpu_count(),
        forall|i: int| 0 <= i < old(st).cpu_count() ==> #[trigger] final(st).cpu(i) == old(st).cpu(i),
{
    st.in_progress = false;
    st.total_compositions = st.total_compositions.wrapping_add(1);
}

/// Every stripe is done.
pub fn all_stripes_done(st: &CompositorState) -> (r: bool)
    ensures
        r == (st.view().completed >= st.view().total_stripes),
{
    st.completed >= st.total_stripes
}

/// What the debug dump shows of one CPU.
#[derive(Clone, Copy, Debug, PartialEq, Eq, Structural)]
pub struct CpuDebugInfo {
    /// Stripes the CPU completed.
    pub stripes: usize,
    /// The CPU has a NUMA node.
    pub numa_assigned: bool,
}

/// The debug figures of a CPU's work state.
pub open spec fn cpu_debug_of(c: CpuWorkState) -> CpuDebugInfo {
    CpuDebugInfo { stripes: c.stripes_completed, numa_assigned: c.numa_node != NUMA_NO_NODE }
}

/// The debug figures of the online CPUs that have a work state, in CPU
/// order.
pub fn cpu_debug_info(st: &CompositorState, online_cpus: usize) -> (r: Vec<CpuDebugInfo>)
    ensures
        r@.len() == (if online_cpus < st.cpu_count() { online_cpus as nat } else { st.cpu_count() }),
        forall|i: int| 0 <= i < r@.len() ==> #[trigger] r@[i] == cpu_debug_of(st.cpu(i)),
{
    let n = if online_cpus < st.cpus.len() {
        online_cpus
    } else {
        st.cpus.len()
    };
    let mut out: Vec<CpuDebugInfo> = Vec::new();
    let mut i: usize = 0;
    while i < n
        invariant
            i <= n <= st.cpus@.len(),
            out@.len() == i,
            forall|k: int| 0 <= k < i ==> #[trigger] out@[k] == cpu_debug_of(st.cpus@[k]),
        decreases n - i,
    {
        let c = &st.cpus[i];
        out.push(CpuDebugInfo { stripes: c.stripes_completed, numa_assigned: c.numa_node != NUMA_NO_NODE });
        i = i + 1;
    }
    out
}

/// Stripes completed by all the given CPUs.
pub open spec fn stripes_total(cs: Seq<CpuDebugInfo>) -> int
    decreases cs.len(),
{
    if cs.len() == 0 {
        0
    } else {
        stripes_total(cs.drop_last()) + cs.last().stripes
    }
}

proof fn lemma_stripes_total_prefix(cs: Seq<CpuDebugInfo>, i: int)
    requires
        0 <= i <= cs.len(),
    ensures
        stripes_total(cs.take(i)) <= stripes_total(cs),
    decreases cs.len() - i,
{
    if i < cs.len() {
        lemma_stripes_total_prefix(cs, i + 1);
        assert(cs.take(i + 1).drop_last() =~= cs.take(i));
    } else {
        assert(cs.take(i) =~= cs);
    }
}

/// Stripes per online CPU for the debug dump: shown when more than one
/// CPU is online and some stripe was completed.
pub fn average_stripes(cpus: &[CpuDebugInfo], online_cpus: usize) -> (r: Option<usize>)
    requires
        stripes_total(cpus@) <= usize::MAX,
    ensures
        r == (if online_cpus > 1 && stripes_total(cpus@) > 0 {
            Some((stripes_total(cpus@) / online_cpus as int) as usize)
        } else {
            None
        }),
{
    let mut total: usize = 0;
    let mut i: usize = 0;
    while i < cpus.len()
        invariant
            i <= cpus@.len(),
            total == stripes_total(cpus@.take(i as int)),
            stripes_total(cpus@) <= usize::MAX,
        decreases cpus@.len() - i,
    {
        proof {
            assert(cpus@.take(i + 1).drop_last() =~= cpus@.take(i as int));
            lemma_stripes_total_prefix(cpus@, i + 1);
        }
        total = total + cpus[i].stripes;
        i = i + 1;
    }
    proof {
        assert(cpus@.take(i as int) =~= cpus@);
    }
    if online_cpus > 1 && total > 0 {
        Some(total / online_cpus)
    } else {
        None
    }
}

} // verus!
