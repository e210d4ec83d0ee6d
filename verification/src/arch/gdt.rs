//! Global Descriptor Table set-up: per-CPU stacks and selectors
//!
//! Each CPU gets a GDT with the kernel code and data segments, the user
//! data and code segments (data first, as SYSRET needs) and its own TSS.
//! The CPU's interrupt stacks are the 16-byte aligned tops of its stack
//! areas; the privilege and error-code stacks sit 8 bytes lower, so that
//! the frame the CPU pushes leaves handlers a correctly aligned stack.

use vstd::prelude::*;
use crate::acpi::MAX_CPUS;

verus! {

/// Bytes of each per-CPU stack.
pub const STACK_SIZE: usize = 4096 * 5;

/// Interrupt stack table slot of the double-fault handler.
pub const DOUBLE_FAULT_IST_INDEX: u16 = 0;

/// Interrupt stack table slot of exceptions that push an error code.
pub const ERROR_CODE_IST_INDEX: u16 = 1;

/// CPUs whose tables and stacks are allocated statically (the BSP).
pub const STATIC_CPU_COUNT: usize = 1;

/// Segment selectors, shared by all CPUs.
#[derive(Clone, Copy, Debug, PartialEq, Eq, Structural)]
pub struct Selectors {
    pub code_selector: u16,
    pub data_selector: u16,
    pub user_code_selector: u16,
    pub user_data_selector: u16,
    pub tss_selector: u16,
}

/// `top` rounded down to a multiple of 16.
pub open spec fn align16(top: u64) -> u64 {
    top & !0xFu64
}

/// Top of a stack area: its end, rounded down to 16 bytes.
pub fn aligned_stack_top(base: u64, size: u64) -> (r: u64)
    requires
        base + size <= u64::MAX,
    ensures
        r == align16((base + size) as u64),
        r % 16 == 0,
        r <= base + size < r + 16,
{
    let top = base + size;
    let r = top & !0xFu64;
    assert(r % 16 == 0 && r <= top && top < r + 16) by (bit_vector)
        requires
            r == top & !0xFu64,
    ;
    r
}

/// Interrupt stack table pointer: the aligned top itself.
pub fn aligned_ist_stack_top(base: u64, size: u64) -> (r: u64)
    requires
        base + size <= u64::MAX,
    ensures
        r == align16((base + size) as u64),
{
    aligned_stack_top(base, size)
}

/// Privilege (ring 0) stack pointer: 8 bytes below the aligned top, so
/// the five words pushed on a privilege change leave `rsp % 16 == 0`.
pub fn aligned_privilege_stack_top(base: u64, size: u64) -> (r: u64)
    requires
        base + size <= u64::MAX,
        align16((base + size) as u64) >= 8,
    ensures
        r == align16((base + size) as u64) - 8,
        r % 16 == 8,
{
    let top = aligned_stack_top(base, size);
    top - 8
}

/// Error-code stack pointer: 8 bytes below the aligned top, like the
/// privilege stack.
pub fn aligned_error_code_stack_top(base: u64, size: u64) -> (r: u64)
    requires
        base + size <= u64::MAX,
        align16((base + size) as u64) >= 8,
    ensures
        r == align16((base + size) as u64) - 8,
        r % 16 == 8,
{
    let top = aligned_stack_top(base, size);
    top - 8
}

/// The stack pointers a CPU's TSS gets.
#[derive(Clone, Copy, Debug, PartialEq, Eq, Structural)]
pub struct CpuStackTops {
    /// Interrupt stack table entry `DOUBLE_FAULT_IST_INDEX`.
    pub double_fault: u64,
    /// Interrupt stack table entry `ERROR_CODE_IST_INDEX`.
    pub error_code: u64,
    /// Privilege stack table entry 0.
    pub kernel: u64,
}

/// How `init_cpu` sets up a CPU.
#[derive(Clone, Copy, Debug, PartialEq, Eq, Structural)]
pub struct InitCpuPlan {
    /// Tables and stacks come from dynamic allocation (every CPU but the
    /// BSP).
    pub uses_dynamic: bool,
    /// This CPU stores the selectors all CPUs use (the BSP).
    pub stores_selectors: bool,
    pub stacks: CpuStackTops,
}

/// Plan the set-up of CPU `cpu_id` whose double-fault, error-code and
/// kernel stack areas of `stack_size` bytes start at the given addresses.
pub fn init_cpu(cpu_id: usize, double_fault_base: u64, error_code_base: u64, kernel_base: u64, stack_size: u64) -> (r: InitCpuPlan)
    requires
        cpu_id < MAX_CPUS,
        double_fault_base + stack_size <= u64::MAX,
        error_code_base + stack_size <= u64::MAX,
        kernel_base + stack_size <= u64::MAX,
        align16((error_code_base + stack_size) as u64) >= 8,
        align16((kernel_base + stack_size) as u64) >= 8,
    ensures
        r.uses_dynamic == (cpu_id >= STATIC_CPU_COUNT),
        r.stores_selectors == (cpu_id == 0),
        r.stacks.double_fault == align16((double_fault_base + stack_size) as u64),
        r.stacks.error_code == align16((error_code_base + stack_size) as u64) - 8,
        r.stacks.kernel == align16((kernel_base + stack_size) as u64) - 8,
{
    let uses_dynamic = cpu_id >= STATIC_CPU_COUNT;
    let df = aligned_ist_stack_top(double_fault_base, stack_size);
    let ec = aligned_error_code_stack_top(error_code_base, stack_size);
    let ks = aligned_privilege_stack_top(kernel_base, stack_size);
    InitCpuPlan {
        uses_dynamic,
        stores_selectors: cpu_id == 0,
        stacks: CpuStackTops { double_fault: df, error_code: ec, kernel: ks },
    }
}

/// What `init_ap` does for a CPU.
#[derive(Clone, Copy, Debug, PartialEq, Eq, Structural)]
pub enum ApInit {
    /// The BSP is no application processor: halt.
    HaltBsp,
    /// Past the supported CPUs: halt.
    HaltTooMany,
    /// Set the CPU up with `init_cpu`.
    Init,
}

/// Load the per-CPU GDT/TSS on an application processor after BSP setup.
pub fn init_ap(cpu_id: usize) -> (r: ApInit)
    ensures
        cpu_id == 0 ==> r == ApInit::HaltBsp,
        cpu_id != 0 && cpu_id >= MAX_CPUS ==> r == ApInit::HaltTooMany,
        cpu_id != 0 && cpu_id < MAX_CPUS ==> r == ApInit::Init,
{
    if cpu_id == 0 {
        return ApInit::HaltBsp;
    }
    if cpu_id >= MAX_CPUS {
        return ApInit::HaltTooMany;
    }
    ApInit::Init
}

/// The selectors, once the BSP has stored them.
pub struct GdtState {
    selectors: Option<Selectors>,
}

impl GdtState {
    pub closed spec fn stored(&self) -> Option<Selectors> {
        self.selectors
    }

    /// No selectors yet.
    pub fn new() -> (r: Self)
        ensures
            r.stored() is None,
    {
        GdtState { selectors: None }
    }

    /// The BSP stores the selectors for all CPUs.
    pub fn store_selectors(&mut self, s: Selectors)
        ensures
            final(self).stored() == Some(s),
    {
        self.selectors = Some(s);
    }

    /// The selectors, if stored.
    pub fn selectors_ref(&self) -> (r: Option<Selectors>)
        ensures
            r == self.stored(),
    {
        self.selectors
    }

    /// The selectors; only once stored.
    pub fn get_selectors(&self) -> (r: Selectors)
        requires
            self.stored() is Some,
        ensures
            Some(r) == self.stored(),
    {
        self.selectors.unwrap()
    }

    /// The selectors to print for a debug dump, if stored.
    pub fn debug_dump_selectors(&self) -> (r: Option<Selectors>)
        ensures
            r == self.stored(),
    {
        self.selectors
    }
}

/// Which TSS `update_tss_rsp0` changes.
#[derive(Clone, Copy, Debug, PartialEq, Eq, Structural)]
pub enum Rsp0Target {
    /// Nothing: the CPU id is out of range or its TSS is not there yet.
    Ignore,
    /// The CPU's dynamically allocated TSS.
    Dynamic,
    /// The CPU's static TSS.
    Static,
}

/// Where a new ring-0 stack pointer for CPU `cpu_id` goes, given whether
/// its dynamic TSS is allocated and its static TSS initialized.
pub fn update_tss_rsp0(cpu_id: usize, dynamic_tss_allocated: bool, static_tss_ready: bool) -> (r: Rsp0Target)
    ensures
        cpu_id >= MAX_CPUS ==> r == Rsp0Target::Ignore,
        cpu_id < MAX_CPUS && cpu_id >= STATIC_CPU_COUNT ==> r == (if dynamic_tss_allocated {
            Rsp0Target::Dynamic
        } else {
            Rsp0Target::Ignore
        }),
        cpu_id < STATIC_CPU_COUNT ==> r == (if static_tss_ready {
            Rsp0Target::Static
        } else {
            Rsp0Target::Ignore
        }),
{
    if cpu_id >= MAX_CPUS {
        return Rsp0Target::Ignore;
    }
    if cpu_id >= STATIC_CPU_COUNT {
        if dynamic_tss_allocated {
            Rsp0Target::Dynamic
        } else {
            Rsp0Target::Ignore
        }
    } else if static_tss_ready {
        Rsp0Target::Static
    } else {
        Rsp0Target::Ignore
    }
}

} // verus!
