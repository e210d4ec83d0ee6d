use nexaos::elf::{ElfLoader, SegmentLoad};

fn put16(d: &mut [u8], at: usize, v: u16) {
    d[at..at + 2].copy_from_slice(&v.to_le_bytes());
}
fn put32(d: &mut [u8], at: usize, v: u32) {
    d[at..at + 4].copy_from_slice(&v.to_le_bytes());
}
fn put64(d: &mut [u8], at: usize, v: u64) {
    d[at..at + 8].copy_from_slice(&v.to_le_bytes());
}

/// A header of an x86-64 executable with `phnum` program headers right
/// after it.
fn image(phnum: u16, extra: usize) -> Vec<u8> {
    let mut d = vec![0u8; 64 + 56 * phnum as usize + extra];
    d[0..4].copy_from_slice(&[0x7F, b'E', b'L', b'F']);
    d[4] = 2;
    d[5] = 1;
    d[6] = 1;
    put16(&mut d, 16, 2);
    put16(&mut d, 18, 0x3E);
    put32(&mut d, 20, 1);
    put64(&mut d, 24, 0x401080);
    put64(&mut d, 32, 64);
    put16(&mut d, 54, 56);
    put16(&mut d, 56, phnum);
    d
}

fn program_header(d: &mut [u8], i: usize, p_type: u32, offset: u64, vaddr: u64, filesz: u64, memsz: u64) {
    let at = 64 + 56 * i;
    put32(d, at, p_type);
    put64(d, at + 8, offset);
    put64(d, at + 16, vaddr);
    put64(d, at + 32, filesz);
    put64(d, at + 40, memsz);
}

fn leak(d: Vec<u8>) -> &'static [u8] {
    Box::leak(d.into_boxed_slice())
}

#[test]
fn elf_header_checks() {
    assert_eq!(ElfLoader::new(leak(vec![0u8; 10])).err(), Some("Data too small for ELF header"));
    let mut d = image(0, 0);
    d[1] = b'X';
    assert_eq!(ElfLoader::new(leak(d)).err(), Some("Invalid ELF magic"));
    let mut d = image(0, 0);
    d[4] = 1;
    assert_eq!(ElfLoader::new(leak(d)).err(), Some("Not ELF64"));
    let mut d = image(0, 0);
    d[5] = 2;
    assert_eq!(ElfLoader::new(leak(d)).err(), Some("Not little endian"));
    let mut d = image(0, 0);
    d[6] = 0;
    assert_eq!(ElfLoader::new(leak(d)).err(), Some("Invalid version"));
    let mut d = image(0, 0);
    put16(&mut d, 18, 0x28);
    assert_eq!(ElfLoader::new(leak(d)).err(), Some("Not x86-64"));
}

#[test]
fn accepted_header_is_valid() {
    let l = ElfLoader::new(leak(image(0, 0))).unwrap();
    let h = l.header();
    assert!(h.is_valid());
    assert_eq!(h.e_entry, 0x401080);
    assert_eq!(h.e_phnum, 0);
}

#[test]
fn load_plans_segments() {
    let mut d = image(2, 32);
    program_header(&mut d, 0, 1, 176, 0x400000, 16, 32);
    program_header(&mut d, 1, 1, 192, 0x401000, 0, 64);
    let l = ElfLoader::new(leak(d)).unwrap();
    assert_eq!(l.program_headers().len(), 2);
    let (steps, entry) = l.load(0x1000_0000);
    assert_eq!(steps, vec![SegmentLoad { target: 0x1000_0000, zero_len: 32, file_offset: 176, file_len: 16 }]);
    assert_eq!(entry, Ok(0x1000_0000 + 0x1080));
}

#[test]
fn load_errors() {
    let l = ElfLoader::new(leak(image(0, 0))).unwrap();
    assert_eq!(l.load(0).1, Err("ELF has no loadable segments"));
    let mut d = image(2, 0);
    program_header(&mut d, 0, 1, 0, 0x400000, 0, 16);
    program_header(&mut d, 1, 1, 0, 0x300000, 0, 16);
    let l = ElfLoader::new(leak(d)).unwrap();
    assert_eq!(l.load(0).1, Err("Segment virtual address before base segment"));
    let mut d = image(1, 0);
    program_header(&mut d, 0, 1, 100, 0x400000, 1000, 1000);
    let l = ElfLoader::new(leak(d)).unwrap();
    let (steps, r) = l.load(0);
    assert!(steps.is_empty());
    assert_eq!(r, Err("Invalid program header"));
}
