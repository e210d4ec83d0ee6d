//! ELF64 loader
//!
//! Checks an executable's header, reads its program headers, and works
//! out where each loadable segment goes: relative to the first loadable
//! segment, placed at the load base.  The kernel copies the bytes.

use vstd::prelude::*;

verus! {

/// ELF magic number: 0x7F 'E' 'L' 'F' read as a little-endian word.
pub const ELF_MAGIC: u32 = 0x464C457F;

/// Bytes of an ELF64 program header.
pub const PROGRAM_HEADER_SIZE: usize = 56;

/// Program header flags
pub const PF_X: u32 = 0x1;
pub const PF_W: u32 = 0x2;
pub const PF_R: u32 = 0x4;

/// ELF class
#[derive(Debug, Clone, Copy, PartialEq, Eq, Structural)]
pub enum ElfClass {
    NoClass,
    Elf32,
    Elf64,
}

impl ElfClass {
    /// The class byte (`e_ident[4]`).
    pub fn code(self) -> (r: u8)
        ensures
            r == match self {
                ElfClass::NoClass => 0u8,
                ElfClass::Elf32 => 1u8,
                ElfClass::Elf64 => 2u8,
            },
    {
        match self {
            ElfClass::NoClass => 0,
            ElfClass::Elf32 => 1,
            ElfClass::Elf64 => 2,
        }
    }
}

/// ELF data encoding
#[derive(Debug, Clone, Copy, PartialEq, Eq, Structural)]
pub enum ElfData {
    NoEncoding,
    LittleEndian,
    BigEndian,
}

impl ElfData {
    /// The encoding byte (`e_ident[5]`).
    pub fn code(self) -> (r: u8)
        ensures
            r == match self {
                ElfData::NoEncoding => 0u8,
                ElfData::LittleEndian => 1u8,
                ElfData::BigEndian => 2u8,
            },
    {
        match self {
            ElfData::NoEncoding => 0,
            ElfData::LittleEndian => 1,
            ElfData::BigEndian => 2,
        }
    }
}

/// ELF type
#[derive(Debug, Clone, Copy, PartialEq, Eq, Structural)]
pub enum ElfType {
    NoType,
    Relocatable,
    Executable,
    Shared,
    Core,
}

/// Program header type
#[derive(Debug, Clone, Copy, PartialEq, Eq, Structural)]
pub enum PhType {
    Null,
    Load,
    Dynamic,
    Interp,
    Note,
    ShLib,
    Phdr,
    Tls,
}

impl PhType {
    /// The type word (`p_type`).
    pub fn code(self) -> (r: u32)
        ensures
            r == match self {
                PhType::Null => 0u32,
                PhType::Load => 1u32,
                PhType::Dynamic => 2u32,
                PhType::Interp => 3u32,
                PhType::Note => 4u32,
                PhType::ShLib => 5u32,
                PhType::Phdr => 6u32,
                PhType::Tls => 7u32,
            },
    {
        match self {
            PhType::Null => 0,
            PhType::Load => 1,
            PhType::Dynamic => 2,
            PhType::Interp => 3,
            PhType::Note => 4,
            PhType::ShLib => 5,
            PhType::Phdr => 6,
            PhType::Tls => 7,
        }
    }
}

/// The little-endian values stored at byte `i`.
pub open spec fn le16(d: Seq<u8>, i: int) -> int {
    d[i] + 256 * d[i + 1]
}

pub open spec fn le32v(d: Seq<u8>, i: int) -> int {
    le16(d, i) + 65536 * le16(d, i + 2)
}

pub open spec fn le64(d: Seq<u8>, i: int) -> int {
    le32v(d, i) + 0x1_0000_0000 * le32v(d, i + 4)
}

fn read_u16(d: &[u8], i: usize) -> (r: u16)
    requires
        i + 2 <= d.len(),
    ensures
        r == le16(d@, i as int),
{
    (d[i] as u16) + 256 * (d[i + 1] as u16)
}

fn read_u32(d: &[u8], i: usize) -> (r: u32)
    requires
        i + 4 <= d.len(),
    ensures
        r == le32v(d@, i as int),
{
    (read_u16(d, i) as u32) + 65536 * (read_u16(d, i + 2) as u32)
}

fn read_u64(d: &[u8], i: usize) -> (r: u64)
    requires
        i + 8 <= d.len(),
    ensures
        r == le64(d@, i as int),
{
    (read_u32(d, i) as u64) + 0x1_0000_0000 * (read_u32(d, i + 4) as u64)
}

/// ELF64 header
#[derive(Debug, Clone, Copy)]
pub struct Elf64Header {
    pub e_ident: [u8; 16],
    pub e_type: u16,
    pub e_machine: u16,
    pub e_version: u32,
    pub e_entry: u64,
    pub e_phoff: u64,
    pub e_shoff: u64,
    pub e_flags: u32,
    pub e_ehsize: u16,
    pub e_phentsize: u16,
    pub e_phnum: u16,
    pub e_shentsize: u16,
    pub e_shnum: u16,
    pub e_shstrndx: u16,
}

/// ELF64 program header
#[derive(Debug, Clone, Copy, PartialEq, Eq, Structural)]
pub struct Elf64ProgramHeader {
    pub p_type: u32,
    pub p_flags: u32,
    pub p_offset: u64,
    pub p_vaddr: u64,
    pub p_paddr: u64,
    pub p_filesz: u64,
    pub p_memsz: u64,
    pub p_align: u64,
}

/// The program header stored at byte `at`.
pub open spec fn ph_at(d: Seq<u8>, at: int) -> Elf64ProgramHeader {
    Elf64ProgramHeader {
        p_type: le32v(d, at) as u32,
        p_flags: le32v(d, at + 4) as u32,
        p_offset: le64(d, at + 8) as u64,
        p_vaddr: le64(d, at + 16) as u64,
        p_paddr: le64(d, at + 24) as u64,
        p_filesz: le64(d, at + 32) as u64,
        p_memsz: le64(d, at + 40) as u64,
        p_align: le64(d, at + 48) as u64,
    }
}

fn read_ph(d: &[u8], at: usize) -> (r: Elf64ProgramHeader)
    requires
        at + 56 <= d.len(),
    ensures
        r == ph_at(d@, at as int),
{
    Elf64ProgramHeader {
        p_type: read_u32(d, at),
        p_flags: read_u32(d, at + 4),
        p_offset: read_u64(d, at + 8),
        p_vaddr: read_u64(d, at + 16),
        p_paddr: read_u64(d, at + 24),
        p_filesz: read_u64(d, at + 32),
        p_memsz: read_u64(d, at + 40),
        p_align: read_u64(d, at + 48),
    }
}

impl Elf64Header {
    /// Check if the header is valid: the magic number, 64-bit class,
    /// little-endian data, version 1 and the x86-64 machine.
    pub fn is_valid(&self) -> (r: bool)
        ensures
            r == (self.e_ident[0] == 0x7F && self.e_ident[1] == 0x45 && self.e_ident[2] == 0x4C
                && self.e_ident[3] == 0x46 && self.e_ident[4] == 2 && self.e_ident[5] == 1
                && self.e_ident[6] == 1 && self.e_machine == 0x3E),
    {
        let magic = (self.e_ident[0] as u32) + 256 * (self.e_ident[1] as u32) + 65536 * (self.e_ident[2] as u32)
            + 16777216 * (self.e_ident[3] as u32);
        if magic != ELF_MAGIC {
            return false;
        }
        if self.e_ident[4] != ElfClass::Elf64.code() {
            return false;
        }
        if self.e_ident[5] != ElfData::LittleEndian.code() {
            return false;
        }
        if self.e_ident[6] != 1 {
            return false;
        }
        if self.e_machine != 0x3E {
            return false;
        }
        true
    }

    /// Get ELF type: executable for 2, shared object for 3, none
    /// otherwise.
    pub fn get_type(&self) -> (r: ElfType)
        ensures
            r == (if self.e_type == 2 {
                ElfType::Executable
            } else if self.e_type == 3 {
                ElfType::Shared
            } else {
                ElfType::NoType
            }),
    {
        match self.e_type {
            2 => ElfType::Executable,
            3 => ElfType::Shared,
            _ => ElfType::NoType,
        }
    }

    /// Get entry point
    pub fn entry_point(&self) -> (r: u64)
        ensures
            r == self.e_entry,
    {
        self.e_entry
    }
}

/// Why an image is refused, in the order the checks are made.
pub open spec fn elf_check(d: Seq<u8>) -> Option<&'static str> {
    if d.len() < 64 {
        Some("Data too small for ELF header")
    } else if le32v(d, 0) != ELF_MAGIC {
        Some("Invalid ELF magic")
    } else if d[4] != 2 {
        Some("Not ELF64")
    } else if d[5] != 1 {
        Some("Not little endian")
    } else if d[6] != 1 {
        Some("Invalid version")
    } else if le16(d, 18) != 0x3E {
        Some("Not x86-64")
    } else {
        None
    }
}

/// ELF loader
pub struct ElfLoader {
    data: &'static [u8],
}

/// One segment to load: `zero_len` bytes at `target` are cleared, then
/// `file_len` bytes from `file_offset` of the image are copied there.
#[derive(Debug, Clone, Copy, PartialEq, Eq, Structural)]
pub struct SegmentLoad {
    pub target: u64,
    pub zero_len: u64,
    pub file_offset: u64,
    pub file_len: u64,
}

/// Where program header `i` lies, if it lies inside the image.
pub open spec fn ph_offset(d: Seq<u8>, i: int) -> Option<int> {
    let at = le64(d, 32) + i * le16(d, 54);
    if at + 56 > d.len() {
        None
    } else {
        Some(at)
    }
}

/// The virtual address of the first loadable segment among headers
/// `[i, n)` that lie inside the image.
pub open spec fn first_load(d: Seq<u8>, i: int, n: int) -> Option<u64>
    decreases n - i,
{
    if i >= n {
        None
    } else {
        match ph_offset(d, i) {
            Some(at) => if ph_at(d, at).p_type == 1 {
                Some(ph_at(d, at).p_vaddr)
            } else {
                first_load(d, i + 1, n)
            },
            None => first_load(d, i + 1, n),
        }
    }
}

/// The segments headers `[i, n)` load, relative to `first` and placed at
/// `base`, and where loading stops: an error for a segment below the
/// first one or whose file bytes run past the image.
pub open spec fn segment_loads(d: Seq<u8>, i: int, n: int, first: u64, base: u64) -> (Seq<SegmentLoad>, Option<&'static str>)
    decreases n - i,
{
    if i >= n {
        (Seq::empty(), None)
    } else {
        match ph_offset(d, i) {
            None => segment_loads(d, i + 1, n, first, base),
            Some(at) => {
                let ph = ph_at(d, at);
                if ph.p_type != 1 {
                    segment_loads(d, i + 1, n, first, base)
                } else if ph.p_vaddr < first {
                    (Seq::empty(), Some("Segment virtual address before base segment"))
                } else if ph.p_filesz > 0 && ph.p_offset + ph.p_filesz > d.len() {
                    (Seq::empty(), Some("Invalid program header"))
                } else {
                    let rest = segment_loads(d, i + 1, n, first, base);
                    let step = SegmentLoad {
                        target: base.wrapping_add((ph.p_vaddr - first) as u64),
                        zero_len: ph.p_memsz,
                        file_offset: ph.p_offset,
                        file_len: ph.p_filesz,
                    };
                    (if ph.p_filesz > 0 {
                        seq![step] + rest.0
                    } else {
                        rest.0
                    }, rest.1)
                }
            },
        }
    }
}

/// Byte offset of program header `i`, computed wide enough not to wrap.
fn ph_location(phoff: u64, i: usize, phentsize: u16) -> (r: u128)
    requires
        i <= u16::MAX,
    ensures
        r == phoff + i * phentsize,
        r <= u64::MAX + 65535 * 65535,
{
    proof {
        assert(i * phentsize <= 65535 * 65535) by (nonlinear_arith)
            requires
                i <= 65535,
                phentsize <= 65535,
        ;
    }
    (phoff as u128) + (i as u128) * (phentsize as u128)
}

impl ElfLoader {
    pub closed spec fn bytes(&self) -> Seq<u8> {
        self.data@
    }

    /// Create a new ELF loader from raw bytes, after checking its header
    /// (see `elf_check`).
    pub fn new(data: &'static [u8]) -> (r: Result<Self, &'static str>)
        ensures
            match r {
                Ok(l) => elf_check(data@) is None && l.bytes() == data@,
                Err(e) => elf_check(data@) == Some(e),
            },
    {
        if data.len() < 64 {
            return Err("Data too small for ELF header");
        }
        if read_u32(data, 0) != ELF_MAGIC {
            return Err("Invalid ELF magic");
        }
        if data[4] != ElfClass::Elf64.code() {
            return Err("Not ELF64");
        }
        if data[5] != ElfData::LittleEndian.code() {
            return Err("Not little endian");
        }
        if data[6] != 1 {
            return Err("Invalid version");
        }
        if read_u16(data, 18) != 0x3E {
            return Err("Not x86-64");
        }
        Ok(ElfLoader { data })
    }

    /// Get the ELF header
    pub fn header(&self) -> (r: Elf64Header)
        requires
            self.bytes().len() >= 64,
        ensures
            forall|i: int| 0 <= i < 16 ==> r.e_ident[i] == self.bytes()[i],
            r.e_type == le16(self.bytes(), 16),
            r.e_machine == le16(self.bytes(), 18),
            r.e_version == le32v(self.bytes(), 20),
            r.e_entry == le64(self.bytes(), 24),
            r.e_phoff == le64(self.bytes(), 32),
            r.e_shoff == le64(self.bytes(), 40),
            r.e_flags == le32v(self.bytes(), 48),
            r.e_ehsize == le16(self.bytes(), 52),
            r.e_phentsize == le16(self.bytes(), 54),
            r.e_phnum == le16(self.bytes(), 56),
            r.e_shentsize == le16(self.bytes(), 58),
            r.e_shnum == le16(self.bytes(), 60),
            r.e_shstrndx == le16(self.bytes(), 62),
    {
        let d = self.data;
        let mut ident = [0u8; 16];
        let mut i: usize = 0;
        while i < 16
            invariant
                i <= 16,
                d@.len() >= 64,
                forall|j: int| 0 <= j < i ==> ident[j] == d@[j],
            decreases 16 - i,
        {
            ident.set(i, d[i]);
            i = i + 1;
        }
        Elf64Header {
            e_ident: ident,
            e_type: read_u16(d, 16),
            e_machine: read_u16(d, 18),
            e_version: read_u32(d, 20),
            e_entry: read_u64(d, 24),
            e_phoff: read_u64(d, 32),
            e_shoff: read_u64(d, 40),
            e_flags: read_u32(d, 48),
            e_ehsize: read_u16(d, 52),
            e_phentsize: read_u16(d, 54),
            e_phnum: read_u16(d, 56),
            e_shentsize: read_u16(d, 58),
            e_shnum: read_u16(d, 60),
            e_shstrndx: read_u16(d, 62),
        }
    }

    /// Get program headers: none unless their size is 56 bytes and they
    /// all lie inside the image.
    pub fn program_headers(&self) -> (r: Vec<Elf64ProgramHeader>)
        requires
            self.bytes().len() >= 64,
        ensures
            ({
                let d = self.bytes();
                let phoff = le64(d, 32);
                let n = le16(d, 56);
                if le16(d, 54) != 56 || phoff + n * 56 > d.len() {
                    r@.len() == 0
                } else {
                    r@.len() == n && forall|i: int| 0 <= i < n ==> #[trigger] r@[i] == ph_at(d, phoff + i * 56)
                }
            }),
    {
        let d = self.data;
        let phoff = read_u64(d, 32);
        let phnum = read_u16(d, 56);
        let phentsize = read_u16(d, 54);
        let mut out: Vec<Elf64ProgramHeader> = Vec::new();
        if phentsize != 56 {
            return out;
        }
        if (phoff as u128) + (phnum as u128) * 56 > d.len() as u128 {
            return out;
        }
        let base = phoff as usize;
        let mut i: usize = 0;
        while i < phnum as usize
            invariant
                i <= phnum,
                base == le64(d@, 32),
                base + phnum * 56 <= d.len(),
                out@.len() == i,
                forall|j: int| 0 <= j < i ==> #[trigger] out@[j] == ph_at(d@, base + j * 56),
            decreases phnum - i,
        {
            proof {
                assert(base + i * 56 + 56 <= base + phnum * 56) by (nonlinear_arith)
                    requires
                        i < phnum,
                ;
            }
            out.push(read_ph(d, base + i * 56));
            i = i + 1;
        }
        out
    }

    /// Plan the loading of the image at `base_addr`: the segments to load
    /// in order (see `segment_loads`), then the relocated entry point, or
    /// the error that stopped loading after the segments before it.
    pub fn load(&self, base_addr: u64) -> (r: (Vec<SegmentLoad>, Result<u64, &'static str>))
        requires
            self.bytes().len() >= 64,
        ensures
            ({
                let d = self.bytes();
                let n = le16(d, 56);
                match first_load(d, 0, n) {
                    None => r.0@.len() == 0 && r.1 == Err::<u64, &'static str>("ELF has no loadable segments"),
                    Some(first) => {
                        let (steps, err) = segment_loads(d, 0, n, first, base_addr);
                        r.0@ == steps && r.1 == match err {
                            Some(e) => Err::<u64, &'static str>(e),
                            None => Ok(base_addr.wrapping_add((le64(d, 24) as u64).wrapping_sub(first))),
                        }
                    },
                }
            }),
    {
        let d = self.data;
        let phoff = read_u64(d, 32);
        let phnum = read_u16(d, 56) as usize;
        let phentsize = read_u16(d, 54);
        let len = d.len() as u128;
        let mut first: Option<u64> = None;
        let mut i: usize = 0;
        while i < phnum && first.is_none()
            invariant
                i <= phnum,
                phnum == le16(d@, 56),
                phnum <= u16::MAX,
                phoff == le64(d@, 32),
                phentsize == le16(d@, 54),
                len == d@.len(),
                len == d.len(),
                first is None ==> first_load(d@, i as int, phnum as int) == first_load(d@, 0, phnum as int),
                first is Some ==> first == first_load(d@, 0, phnum as int),
            decreases phnum - i,
        {
            let at = ph_location(phoff, i, phentsize);
            if at + 56 <= len {
                let ph = read_ph(d, at as usize);
                if ph.p_type == PhType::Load.code() {
                    first = Some(ph.p_vaddr);
                }
            }
            i = i + 1;
        }
        let mut steps: Vec<SegmentLoad> = Vec::new();
        let first_vaddr = match first {
            Some(v) => v,
            None => return (steps, Err("ELF has no loadable segments")),
        };
        let ghost total = segment_loads(d@, 0, phnum as int, first_vaddr, base_addr);
        let mut i: usize = 0;
        while i < phnum
            invariant
                i <= phnum,
                phnum == le16(d@, 56),
                phnum <= u16::MAX,
                phoff == le64(d@, 32),
                phentsize == le16(d@, 54),
                len == d@.len(),
                len == d.len(),
                d@ == self.bytes(),
                first_load(d@, 0, phnum as int) == Some(first_vaddr),
                total == segment_loads(d@, 0, phnum as int, first_vaddr, base_addr),
                steps@ + segment_loads(d@, i as int, phnum as int, first_vaddr, base_addr).0 == total.0,
                segment_loads(d@, i as int, phnum as int, first_vaddr, base_addr).1 == total.1,
            decreases phnum - i,
        {
            let at = ph_location(phoff, i, phentsize);
            if at + 56 <= len {
                let ph = read_ph(d, at as usize);
                if ph.p_type == PhType::Load.code() {
                    if ph.p_vaddr < first_vaddr {
                        assert(segment_loads(d@, i as int, phnum as int, first_vaddr, base_addr)
                            == (Seq::<SegmentLoad>::empty(), Some("Segment virtual address before base segment")));
                        assert(steps@ + Seq::<SegmentLoad>::empty() =~= steps@);
                        return (steps, Err("Segment virtual address before base segment"));
                    }
                    if ph.p_filesz > 0 {
                        if (ph.p_offset as u128) + (ph.p_filesz as u128) > len {
                            assert(segment_loads(d@, i as int, phnum as int, first_vaddr, base_addr)
                                == (Seq::<SegmentLoad>::empty(), Some("Invalid program header")));
                            assert(steps@ + Seq::<SegmentLoad>::empty() =~= steps@);
                            return (steps, Err("Invalid program header"));
                        }
                        let ghost before = steps@;
                        steps.push(SegmentLoad {
                            target: base_addr.wrapping_add(ph.p_vaddr - first_vaddr),
                            zero_len: ph.p_memsz,
                            file_offset: ph.p_offset,
                            file_len: ph.p_filesz,
                        });
                        assert(before.push(steps@.last()) + segment_loads(d@, i + 1, phnum as int, first_vaddr, base_addr).0
                            =~= before + (seq![steps@.last()] + segment_loads(d@, i + 1, phnum as int, first_vaddr, base_addr).0));
                    }
                }
            }
            i = i + 1;
        }
        assert(steps@ + Seq::<SegmentLoad>::empty() =~= steps@);
        let e_entry = read_u64(d, 24);
        (steps, Ok(base_addr.wrapping_add(e_entry.wrapping_sub(first_vaddr))))
    }
}


/// An image that `ElfLoader::new` accepts has a header that
/// `Elf64Header::is_valid` accepts: the magic bytes 7F 'E' 'L' 'F', the
/// 64-bit class, little-endian data, version 1 and the x86-64 machine.
pub proof fn law_accepted_header_valid(d: Seq<u8>)
    requires
        elf_check(d) is None,
    ensures
        d[0] == 0x7F && d[1] == 0x45 && d[2] == 0x4C && d[3] == 0x46,
        d[4] == 2 && d[5] == 1 && d[6] == 1,
        le16(d, 18) == 0x3E,
{
    let (b0, b1, b2, b3) = (d[0], d[1], d[2], d[3]);
    assert(b0 + 256 * b1 + 65536 * b2 + 16777216 * b3 == 0x464C457F);
    assert(b0 == 0x7F && b1 == 0x45 && b2 == 0x4C && b3 == 0x46) by (nonlinear_arith)
        requires
            b0 + 256 * b1 + 65536 * b2 + 16777216 * b3 == 0x464C457F,
            0 <= b0 < 256,
            0 <= b1 < 256,
            0 <= b2 < 256,
            0 <= b3 < 256,
    ;
}

/// A loadable header `j` whose file bytes run past the end of the image.
pub open spec fn file_bytes_past_end(d: Seq<u8>, j: int) -> bool {
    match ph_offset(d, j) {
        Some(at) => ph_at(d, at).p_type == 1 && ph_at(d, at).p_filesz > 0 && ph_at(d, at).p_offset
            + ph_at(d, at).p_filesz > d.len(),
        None => false,
    }
}

/// Law: a loadable segment at or above the first one whose file bytes lie
/// in the image is loaded, whatever its memory size: its step clears
/// `p_memsz` bytes at its place relative to the first segment and copies
/// its `p_filesz` file bytes, and loading goes on with the next header.
pub proof fn law_fitting_segment_loads(d: Seq<u8>, i: int, n: int, first: u64, base: u64)
    requires
        i < n,
        ph_offset(d, i) is Some,
        ph_at(d, ph_offset(d, i).unwrap()).p_type == 1,
        ph_at(d, ph_offset(d, i).unwrap()).p_vaddr >= first,
        ph_at(d, ph_offset(d, i).unwrap()).p_filesz > 0,
        ph_at(d, ph_offset(d, i).unwrap()).p_offset + ph_at(d, ph_offset(d, i).unwrap()).p_filesz <= d.len(),
    ensures
        ({
            let ph = ph_at(d, ph_offset(d, i).unwrap());
            let r = segment_loads(d, i, n, first, base);
            let rest = segment_loads(d, i + 1, n, first, base);
            &&& r.0.len() >= 1
            &&& r.0[0] == (SegmentLoad {
                target: base.wrapping_add((ph.p_vaddr - first) as u64),
                zero_len: ph.p_memsz,
                file_offset: ph.p_offset,
                file_len: ph.p_filesz,
            })
            &&& r.0.drop_first() == rest.0
            &&& r.1 == rest.1
        }),
{
    let ph = ph_at(d, ph_offset(d, i).unwrap());
    let rest = segment_loads(d, i + 1, n, first, base);
    let step = SegmentLoad {
        target: base.wrapping_add((ph.p_vaddr - first) as u64),
        zero_len: ph.p_memsz,
        file_offset: ph.p_offset,
        file_len: ph.p_filesz,
    };
    assert((seq![step] + rest.0).drop_first() =~= rest.0);
}

/// Law: loading stops with "Invalid program header" only because some
/// loadable header's file bytes run past the end of the image (a memory
/// size larger than the file bytes is never a reason).
pub proof fn law_invalid_header_past_end(d: Seq<u8>, i: int, n: int, first: u64, base: u64)
    ensures
        (segment_loads(d, i, n, first, base).1 matches Some(e) && e@ == "Invalid program header"@) ==> exists|j: int|
            i <= j < n && #[trigger] file_bytes_past_end(d, j),
    decreases n - i,
{
    reveal_strlit("Invalid program header");
    reveal_strlit("Segment virtual address before base segment");
    let r = segment_loads(d, i, n, first, base);
    if i < n && (r.1 matches Some(e) && e@ == "Invalid program header"@) {
        law_invalid_header_past_end(d, i + 1, n, first, base);
        let rest = segment_loads(d, i + 1, n, first, base);
        match ph_offset(d, i) {
            None => {
                assert(r == rest);
            },
            Some(at) => {
                let ph = ph_at(d, at);
                if ph.p_type != 1 {
                    assert(r == rest);
                } else if ph.p_vaddr < first {
                    assert(r.1 == Some("Segment virtual address before base segment"));
                    assert("Segment virtual address before base segment"@.len() != "Invalid program header"@.len());
                } else if ph.p_filesz > 0 && ph.p_offset + ph.p_filesz > d.len() {
                    assert(file_bytes_past_end(d, i));
                } else {
                    assert(r.1 == rest.1);
                }
            },
        }
    }
}

} // verus!
