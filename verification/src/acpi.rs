//! ACPI tables: the RSDP, the root tables and the MADT
//!
//! Tables are read from memory seen as a byte slice indexed by physical
//! address.  A table or pointer that leads outside that memory counts as
//! absent.

use vstd::prelude::*;
use crate::drivers::compositor::memory::{le32, read_le32};

verus! {

pub const MAX_CPUS: usize = 16;

/// Signature of the RSDP, "RSD PTR ".
pub const RSDP_SIGNATURE: [u8; 8] = [82, 83, 68, 32, 80, 84, 82, 32];

/// Signature of the MADT, "APIC".
pub const MADT_SIGNATURE: [u8; 4] = [65, 80, 73, 67];

/// Bytes of a table header; the MADT adds the local APIC address and
/// flags.
pub const SDT_HEADER_SIZE: usize = 36;
pub const MADT_HEADER_SIZE: usize = 44;

/// Bytes of an RSDP of revision 2.
pub const RSDP_V2_SIZE: usize = 36;

/// A processor listed in the MADT.
#[derive(Clone, Copy, Debug, PartialEq, Eq, Structural)]
pub struct CpuDescriptor {
    pub acpi_processor_id: u8,
    pub apic_id: u8,
    pub enabled: bool,
}

impl CpuDescriptor {
    /// A disabled processor with both ids 0.
    pub fn empty() -> (r: Self)
        ensures
            r == (CpuDescriptor { acpi_processor_id: 0, apic_id: 0, enabled: false }),
    {
        CpuDescriptor { acpi_processor_id: 0, apic_id: 0, enabled: false }
    }
}

/// Sum of the bytes, modulo 256.
pub open spec fn byte_sum(s: Seq<u8>) -> u8
    decreases s.len(),
{
    if s.len() == 0 {
        0
    } else {
        byte_sum(s.drop_last()).wrapping_add(s.last())
    }
}

/// Sum of `len` bytes at `at`, modulo 256 (a valid table sums to 0).
pub fn checksum(mem: &[u8], at: usize, len: usize) -> (r: u8)
    requires
        at + len <= mem@.len(),
    ensures
        r == byte_sum(mem@.subrange(at as int, at + len)),
{
    let mut sum: u8 = 0;
    let mut i: usize = 0;
    while i < len
        invariant
            i <= len,
            at + len <= mem.len(),
            mem@.len() == mem.len(),
            sum == byte_sum(mem@.subrange(at as int, at + i)),
        decreases len - i,
    {
        assert(mem@.subrange(at as int, at + i + 1).drop_last() =~= mem@.subrange(at as int, at + i));
        sum = sum.wrapping_add(mem[at + i]);
        i = i + 1;
    }
    sum
}

/// The local APIC entries of a MADT whose entry bytes are `e`, from
/// offset `off` on, after `acc`: enabled processors are kept (at most
/// `MAX_CPUS`); an entry shorter than 2 bytes or running past the end
/// ends the list, as does a local APIC entry shorter than 8 bytes.
pub open spec fn madt_cpus(e: Seq<u8>, off: int, acc: Seq<CpuDescriptor>) -> Seq<CpuDescriptor>
    decreases e.len() - off,
{
    if off < 0 || off + 2 > e.len() {
        acc
    } else {
        let kind = e[off];
        let len = e[off + 1] as int;
        if len < 2 || off + len > e.len() || (kind == 0 && len < 8) {
            acc
        } else {
            let enabled = kind == 0 && le32(e, off + 4) & 1 != 0;
            madt_cpus(
                e,
                off + len,
                if enabled && acc.len() < MAX_CPUS {
                    acc.push(CpuDescriptor { acpi_processor_id: e[off + 2], apic_id: e[off + 3], enabled: true })
                } else {
                    acc
                },
            )
        }
    }
}

/// The table length a header declares.
pub open spec fn table_length(t: Seq<u8>) -> u32 {
    le32(t, 4)
}

/// Bytes of the MADT's entries: the declared length past the MADT header.
pub open spec fn madt_entries_len(madt: Seq<u8>) -> int {
    if table_length(madt) >= MADT_HEADER_SIZE {
        table_length(madt) - MADT_HEADER_SIZE
    } else {
        0
    }
}

/// What the MADT tells: the local APIC's address and the processors.
#[derive(Clone, Debug)]
pub struct MadtInfo {
    pub lapic_base: u64,
    pub cpus: Vec<CpuDescriptor>,
}

/// Read the local APIC address and the enabled processors from a MADT;
/// an error where none is enabled.
pub fn parse_madt(madt: &[u8]) -> (r: Result<MadtInfo, &'static str>)
    requires
        madt@.len() >= MADT_HEADER_SIZE,
        table_length(madt@) <= madt@.len(),
    ensures
        ({
            let cpus = madt_cpus(madt@.subrange(MADT_HEADER_SIZE as int, MADT_HEADER_SIZE + madt_entries_len(madt@)), 0, Seq::empty());
            match r {
                Ok(info) => cpus.len() > 0 && info.cpus@ == cpus && info.lapic_base == le32(madt@, 36) as u64,
                Err(_) => cpus.len() == 0,
            }
        }),
{
    let lapic = read_le32(madt, 36) as u64;
    let length = read_le32(madt, 4);
    let entries_len: usize = if length as usize >= MADT_HEADER_SIZE {
        length as usize - MADT_HEADER_SIZE
    } else {
        0
    };
    let ghost e = madt@.subrange(MADT_HEADER_SIZE as int, MADT_HEADER_SIZE + entries_len);
    let mut cpus: Vec<CpuDescriptor> = Vec::new();
    let mut offset: usize = 0;
    let mut done = false;
    while !done && offset + 2 <= entries_len
        invariant
            entries_len + MADT_HEADER_SIZE <= madt.len(),
            madt@.len() == madt.len(),
            e == madt@.subrange(MADT_HEADER_SIZE as int, MADT_HEADER_SIZE + entries_len),
            offset <= entries_len,
            cpus@.len() <= MAX_CPUS,
            madt_cpus(e, offset as int, cpus@) == madt_cpus(e, 0, Seq::empty()),
            done ==> madt_cpus(e, offset as int, cpus@) == cpus@,
        decreases entries_len - offset, (if done { 0int } else { 1int }),
    {
        let at = MADT_HEADER_SIZE + offset;
        let entry_type = madt[at];
        let entry_len = madt[at + 1] as usize;
        if entry_len < 2 || entry_len > entries_len - offset || (entry_type == 0 && entry_len < 8) {
            done = true;
        } else {
            if entry_type == 0 {
                let flags = read_le32(madt, at + 4);
                assert(le32(e, offset + 4) == le32(madt@, at + 4));
                let enabled = (flags & 1) != 0;
                if enabled && cpus.len() < MAX_CPUS {
                    cpus.push(CpuDescriptor { acpi_processor_id: madt[at + 2], apic_id: madt[at + 3], enabled });
                }
            }
            offset = offset + entry_len;
        }
    }
    assert(madt_cpus(e, offset as int, cpus@) == cpus@);
    if cpus.len() == 0 {
        return Err("MADT contains no enabled processors");
    }
    Ok(MadtInfo { lapic_base: lapic, cpus })
}

/// The RSDP's bytes covered by its checksum: the extended length for
/// revision 2 or later when it covers the whole structure, else 20.
pub open spec fn rsdp_checked_len(mem: Seq<u8>, addr: int) -> int {
    if mem[addr + 15] >= 2 && le32(mem, addr + 20) >= RSDP_V2_SIZE {
        le32(mem, addr + 20) as int
    } else {
        20
    }
}

/// An RSDP lies at `addr`: its signature, and a checksum of 0 over its
/// checked bytes, all inside memory.
pub open spec fn rsdp_at(mem: Seq<u8>, addr: int) -> bool {
    &&& 0 <= addr && addr + RSDP_V2_SIZE <= mem.len()
    &&& forall|i: int| 0 <= i < 8 ==> mem[addr + i] == RSDP_SIGNATURE@[i]
    &&& addr + rsdp_checked_len(mem, addr) <= mem.len()
    &&& byte_sum(mem.subrange(addr, addr + rsdp_checked_len(mem, addr))) == 0
}

/// Whether an RSDP lies at `addr`.
fn check_rsdp(mem: &[u8], addr: usize) -> (r: bool)
    ensures
        r == rsdp_at(mem@, addr as int),
{
    if addr > mem.len() || mem.len() - addr < RSDP_V2_SIZE {
        return false;
    }
    let mut i: usize = 0;
    while i < 8
        invariant
            i <= 8,
            addr + RSDP_V2_SIZE <= mem.len(),
            mem@.len() == mem.len(),
            forall|j: int| 0 <= j < i ==> mem@[addr + j] == RSDP_SIGNATURE@[j],
        decreases 8 - i,
    {
        if mem[addr + i] != RSDP_SIGNATURE[i] {
            return false;
        }
        i = i + 1;
    }
    let revision = mem[addr + 15];
    let ext = read_le32(mem, addr + 20);
    let length: usize = if revision >= 2 && ext as usize >= RSDP_V2_SIZE {
        ext as usize
    } else {
        20
    };
    if length > mem.len() - addr {
        return false;
    }
    checksum(mem, addr, length) == 0
}

/// The first RSDP at a 16-byte step from `start` below `end`.
pub open spec fn first_rsdp(mem: Seq<u8>, start: int, end: int) -> Option<int>
    decreases end + 16 - start,
{
    if start >= end {
        None
    } else if rsdp_at(mem, start) {
        Some(start)
    } else {
        first_rsdp(mem, start + 16, end)
    }
}

/// Search `[start, end)` in 16-byte steps for the RSDP.
pub fn search_rsdp(mem: &[u8], start: usize, end: usize) -> (r: Option<usize>)
    requires
        end <= usize::MAX - 16,
    ensures
        r == (match first_rsdp(mem@, start as int, end as int) {
            Some(a) => Some(a as usize),
            None => None::<usize>,
        }),
{
    let mut addr = start;
    if addr >= end {
        return None;
    }
    while addr < end
        invariant
            end <= usize::MAX - 16,
            addr <= end + 16,
            first_rsdp(mem@, addr as int, end as int) == first_rsdp(mem@, start as int, end as int),
        decreases end + 16 - addr,
    {
        if check_rsdp(mem, addr) {
            return Some(addr);
        }
        addr = addr + 16;
    }
    None
}

/// Where the BIOS data area says the extended BIOS data area lies: the
/// 16-bit segment at 0x40E, times 16.
pub open spec fn ebda_addr(mem: Seq<u8>) -> int {
    (mem[0x40E] as int + 256 * mem[0x40F] as int) * 16
}

/// Find the RSDP: first in the first KiB of the extended BIOS data area
/// when it lies at 0x80000 or above, then in the BIOS area 0xE0000 to
/// 0x100000.
pub fn find_rsdp(mem: &[u8]) -> (r: Option<usize>)
    requires
        mem@.len() > 0x40F,
    ensures
        r == (match (if ebda_addr(mem@) >= 0x80000 {
            first_rsdp(mem@, ebda_addr(mem@), ebda_addr(mem@) + 1024)
        } else {
            None
        }) {
            Some(a) => Some(a as usize),
            None => match first_rsdp(mem@, 0xE0000, 0x100000) {
                Some(a) => Some(a as usize),
                None => None::<usize>,
            },
        }),
{
    let ebda = ((mem[0x40E] as usize) + 256 * (mem[0x40F] as usize)) * 16;
    if ebda >= 0x80000 {
        if let Some(a) = search_rsdp(mem, ebda, ebda + 1024) {
            return Some(a);
        }
    }
    search_rsdp(mem, 0xE0000, 0x100000)
}

/// A table with the MADT's signature and a checksum of 0 over its declared
/// length lies at `addr`, inside memory.
pub open spec fn madt_at(mem: Seq<u8>, addr: int) -> bool {
    &&& 0 <= addr && addr + SDT_HEADER_SIZE <= mem.len()
    &&& forall|i: int| 0 <= i < 4 ==> mem[addr + i] == MADT_SIGNATURE@[i]
    &&& addr + le32(mem, addr + 4) <= mem.len()
    &&& byte_sum(mem.subrange(addr, addr + le32(mem, addr + 4))) == 0
}

/// Whether a MADT lies at `addr`.
fn check_madt(mem: &[u8], addr: usize) -> (r: bool)
    ensures
        r == madt_at(mem@, addr as int),
{
    if addr > mem.len() || mem.len() - addr < SDT_HEADER_SIZE {
        return false;
    }
    let mut i: usize = 0;
    while i < 4
        invariant
            i <= 4,
            addr + SDT_HEADER_SIZE <= mem.len(),
            mem@.len() == mem.len(),
            forall|j: int| 0 <= j < i ==> mem@[addr + j] == MADT_SIGNATURE@[j],
        decreases 4 - i,
    {
        if mem[addr + i] != MADT_SIGNATURE[i] {
            return false;
        }
        i = i + 1;
    }
    let length = read_le32(mem, addr + 4) as usize;
    if length > mem.len() - addr {
        return false;
    }
    checksum(mem, addr, length) == 0
}

/// Entry `idx` of a root table at `addr`: 64-bit entries for the XSDT,
/// 32-bit for the RSDT.
pub open spec fn sdt_entry(mem: Seq<u8>, addr: int, idx: int, is_xsdt: bool) -> int {
    let at = addr + SDT_HEADER_SIZE + idx * (if is_xsdt { 8int } else { 4int });
    if is_xsdt {
        le32(mem, at) as int + 0x1_0000_0000 * le32(mem, at + 4) as int
    } else {
        le32(mem, at) as int
    }
}

/// The first entry among `[idx, count)` of a root table that points at a
/// MADT.
pub open spec fn first_madt(mem: Seq<u8>, addr: int, idx: int, count: int, is_xsdt: bool) -> Option<int>
    decreases count - idx,
{
    if idx >= count {
        None
    } else {
        let entry = sdt_entry(mem, addr, idx, is_xsdt);
        if entry != 0 && madt_at(mem, entry) {
            Some(entry)
        } else {
            first_madt(mem, addr, idx + 1, count, is_xsdt)
        }
    }
}

/// Entries of a root table: its declared length past the header, in
/// entries of 8 or 4 bytes.
pub open spec fn sdt_count(mem: Seq<u8>, addr: int, is_xsdt: bool) -> int {
    let l = le32(mem, addr + 4) as int;
    (if l >= SDT_HEADER_SIZE {
        l - SDT_HEADER_SIZE
    } else {
        0
    }) / (if is_xsdt {
        8int
    } else {
        4int
    })
}

/// The root table at `addr` lies inside memory with a checksum of 0.
pub open spec fn sdt_valid(mem: Seq<u8>, addr: int) -> bool {
    &&& 0 <= addr && addr + SDT_HEADER_SIZE <= mem.len()
    &&& addr + le32(mem, addr + 4) <= mem.len()
    &&& byte_sum(mem.subrange(addr, addr + le32(mem, addr + 4))) == 0
}

/// Look through a valid root table for the MADT.
pub fn scan_sdt(mem: &[u8], addr: u64, is_xsdt: bool) -> (r: Option<usize>)
    ensures
        r == (if addr as int <= usize::MAX && sdt_valid(mem@, addr as int) {
            match first_madt(mem@, addr as int, 0, sdt_count(mem@, addr as int, is_xsdt), is_xsdt) {
                Some(a) => Some(a as usize),
                None => None::<usize>,
            }
        } else {
            None
        }),
{
    if addr as u128 > usize::MAX as u128 {
        return None;
    }
    let a = addr as usize;
    if a > mem.len() || mem.len() - a < SDT_HEADER_SIZE {
        return None;
    }
    let length = read_le32(mem, a + 4) as usize;
    if length > mem.len() - a {
        return None;
    }
    if checksum(mem, a, length) != 0 {
        return None;
    }
    let entry_size: usize = if is_xsdt {
        8
    } else {
        4
    };
    let entries_len: usize = if length >= SDT_HEADER_SIZE {
        length - SDT_HEADER_SIZE
    } else {
        0
    };
    let entry_count = entries_len / entry_size;
    assert(entry_count * entry_size <= entries_len) by (nonlinear_arith)
        requires
            entry_count == entries_len / entry_size,
            entry_size > 0,
    ;
    assert(sdt_valid(mem@, a as int));
    let mut idx: usize = 0;
    while idx < entry_count
        invariant
            idx <= entry_count,
            entry_count * entry_size <= entries_len,
            entry_count > 0 ==> a + SDT_HEADER_SIZE + entries_len <= mem.len(),
            mem@.len() == mem.len(),
            entry_size == (if is_xsdt { 8usize } else { 4usize }),
            entry_count == sdt_count(mem@, a as int, is_xsdt),
            sdt_valid(mem@, a as int),
            a as int == addr as int,
            first_madt(mem@, a as int, idx as int, entry_count as int, is_xsdt) == first_madt(mem@, a as int, 0, entry_count as int, is_xsdt),
        decreases entry_count - idx,
    {
        assert((idx + 1) * entry_size <= entry_count * entry_size) by (nonlinear_arith)
            requires
                idx < entry_count,
        ;
        assert(idx * entry_size + entry_size == (idx + 1) * entry_size) by (nonlinear_arith);
        let at = a + SDT_HEADER_SIZE + idx * entry_size;
        let lo = read_le32(mem, at) as u64;
        let entry: u64 = if is_xsdt {
            lo + 0x1_0000_0000u64 * (read_le32(mem, at + 4) as u64)
        } else {
            lo
        };
        assert(entry as int == sdt_entry(mem@, a as int, idx as int, is_xsdt));
        if entry != 0 && entry as u128 <= usize::MAX as u128 && check_madt(mem, entry as usize) {
            assert(first_madt(mem@, a as int, idx as int, entry_count as int, is_xsdt) == Some(entry as int));
            return Some(entry as usize);
        }
        idx = idx + 1;
    }
    None
}

/// Where the MADT lies, from the RSDP at `rsdp`: through the XSDT for
/// revision 2 or later with an XSDT, else (or when the XSDT lists none)
/// through the RSDT.
pub open spec fn madt_from(mem: Seq<u8>, rsdp: int) -> Option<int> {
    let xsdt = le32(mem, rsdp + 24) as int + 0x1_0000_0000 * le32(mem, rsdp + 28) as int;
    let rsdt = le32(mem, rsdp + 16) as int;
    let via_xsdt = if mem[rsdp + 15] >= 2 && xsdt != 0 && xsdt <= usize::MAX && sdt_valid(mem, xsdt) {
        first_madt(mem, xsdt, 0, sdt_count(mem, xsdt, true), true)
    } else {
        None
    };
    match via_xsdt {
        Some(a) => Some(a),
        None => if rsdt != 0 && sdt_valid(mem, rsdt) {
            first_madt(mem, rsdt, 0, sdt_count(mem, rsdt, false), false)
        } else {
            None
        },
    }
}

/// Find the MADT through the RSDP at `rsdp`.
pub fn locate_madt(mem: &[u8], rsdp: usize) -> (r: Option<usize>)
    requires
        rsdp_at(mem@, rsdp as int),
    ensures
        r == (match madt_from(mem@, rsdp as int) {
            Some(a) => Some(a as usize),
            None => None::<usize>,
        }),
{
    let n = mem.len();
    assert(rsdp + 36 <= n);
    let revision = mem[rsdp + 15];
    let xsdt = (read_le32(mem, rsdp + 24) as u64) + 0x1_0000_0000u64 * (read_le32(mem, rsdp + 28) as u64);
    if revision >= 2 && xsdt != 0 {
        if let Some(a) = scan_sdt(mem, xsdt, true) {
            return Some(a);
        }
    }
    let rsdt = read_le32(mem, rsdp + 16);
    if rsdt != 0 {
        if let Some(a) = scan_sdt(mem, rsdt as u64, false) {
            return Some(a);
        }
    }
    None
}

/// What ACPI reported at boot.
pub struct AcpiState {
    init_done: bool,
    lapic_base: u64,
    cpus: Vec<CpuDescriptor>,
}

impl AcpiState {
    pub closed spec fn ready(&self) -> bool {
        self.init_done
    }

    pub closed spec fn lapic(&self) -> u64 {
        self.lapic_base
    }

    pub closed spec fn cpu_list(&self) -> Seq<CpuDescriptor> {
        self.cpus@
    }

    /// Nothing read yet.
    pub fn new() -> (r: Self)
        ensures
            !r.ready(),
    {
        AcpiState { init_done: false, lapic_base: 0, cpus: Vec::new() }
    }

    /// Read the processors from the MADT that the RSDP leads to; done once.
    /// Errors: no RSDP, no MADT (or one shorter than its header), no
    /// enabled processor.
    pub fn init(&mut self, mem: &[u8]) -> (r: Result<(), &'static str>)
        requires
            mem@.len() > 0x40F,
        ensures
            old(self).ready() ==> r is Ok && *final(self) == *old(self),
            !old(self).ready() && r is Ok ==> final(self).ready() && exists|m: int|
                #![trigger madt_at(mem@, m)]
                madt_at(mem@, m) && final(self).lapic() == le32(mem@, m + 36) as u64
                    && final(self).cpu_list() == madt_cpus(
                    mem@.subrange(m + MADT_HEADER_SIZE, m + MADT_HEADER_SIZE + madt_entries_len(mem@.subrange(m, m + le32(mem@, m + 4)))),
                    0,
                    Seq::empty(),
                ),
            !old(self).ready() && r is Err ==> !final(self).ready(),
    {
        if self.init_done {
            return Ok(());
        }
        let n = mem.len();
        let rsdp = match find_rsdp(mem) {
            Some(a) => a,
            None => return Err("RSDP not found"),
        };
        proof {
            lemma_first_rsdp_found(mem@, 0xE0000, 0x100000);
            if ebda_addr(mem@) >= 0x80000 {
                lemma_first_rsdp_found(mem@, ebda_addr(mem@), ebda_addr(mem@) + 1024);
            }
        }
        assert(rsdp_at(mem@, rsdp as int));
        let madt = match locate_madt(mem, rsdp) {
            Some(a) => a,
            None => return Err("MADT not found"),
        };
        proof {
            lemma_madt_found(mem@, rsdp as int);
        }
        assert(madt_at(mem@, madt as int));
        let length = read_le32(mem, madt + 4) as usize;
        if length < MADT_HEADER_SIZE {
            return Err("MADT not found");
        }
        let table = vstd::slice::slice_subrange(mem, madt, madt + length);
        assert(table@ =~= mem@.subrange(madt as int, madt + length));
        assert(table_length(table@) == length) by {
            assert(table@[4] == mem@[madt + 4]);
            assert(table@[5] == mem@[madt + 5]);
            assert(table@[6] == mem@[madt + 6]);
            assert(table@[7] == mem@[madt + 7]);
        }
        match parse_madt(table) {
            Ok(info) => {
                assert(info.lapic_base == le32(mem@, madt + 36) as u64) by {
                    assert(table@[36] == mem@[madt + 36]);
                    assert(table@[37] == mem@[madt + 37]);
                    assert(table@[38] == mem@[madt + 38]);
                    assert(table@[39] == mem@[madt + 39]);
                }
                assert(table@.subrange(MADT_HEADER_SIZE as int, MADT_HEADER_SIZE + madt_entries_len(table@))
                    =~= mem@.subrange(madt + MADT_HEADER_SIZE, madt + MADT_HEADER_SIZE + madt_entries_len(mem@.subrange(madt as int, madt + le32(mem@, madt + 4)))));
                self.lapic_base = info.lapic_base;
                self.cpus = info.cpus;
                self.init_done = true;
                Ok(())
            },
            Err(e) => Err(e),
        }
    }

    /// The local APIC's address, once read.
    pub fn lapic_base(&self) -> (r: Option<u64>)
        ensures
            r == (if self.ready() {
                Some(self.lapic())
            } else {
                None
            }),
    {
        if !self.init_done {
            return None;
        }
        Some(self.lapic_base)
    }

    /// The enabled processors, once read; none before.
    pub fn cpus(&self) -> (r: &[CpuDescriptor])
        ensures
            r@ == (if self.ready() {
                self.cpu_list()
            } else {
                Seq::empty()
            }),
    {
        if !self.init_done {
            return &[];
        }
        self.cpus.as_slice()
    }
}

/// A search that finds something finds an RSDP.
proof fn lemma_first_rsdp_found(mem: Seq<u8>, start: int, end: int)
    ensures
        first_rsdp(mem, start, end) matches Some(a) ==> rsdp_at(mem, a),
    decreases end + 16 - start,
{
    if start < end && !rsdp_at(mem, start) {
        lemma_first_rsdp_found(mem, start + 16, end);
    }
}

/// A root table that leads to a MADT leads to one.
proof fn lemma_first_madt_found(mem: Seq<u8>, addr: int, idx: int, count: int, is_xsdt: bool)
    ensures
        first_madt(mem, addr, idx, count, is_xsdt) matches Some(a) ==> madt_at(mem, a),
    decreases count - idx,
{
    if idx < count {
        lemma_first_madt_found(mem, addr, idx + 1, count, is_xsdt);
    }
}

proof fn lemma_madt_found(mem: Seq<u8>, rsdp: int)
    ensures
        madt_from(mem, rsdp) matches Some(a) ==> madt_at(mem, a),
{
    let xsdt = le32(mem, rsdp + 24) as int + 0x1_0000_0000 * le32(mem, rsdp + 28) as int;
    let rsdt = le32(mem, rsdp + 16) as int;
    lemma_first_madt_found(mem, xsdt, 0, sdt_count(mem, xsdt, true), true);
    lemma_first_madt_found(mem, rsdt, 0, sdt_count(mem, rsdt, false), false);
}

} // verus!
