use ralph_os::elf::{load_elf, memory_span, Elf, Elf64ProgramHeader, ElfError};

fn put16(v: &mut Vec<u8>, at: usize, x: u16) {
    v[at..at + 2].copy_from_slice(&x.to_le_bytes());
}

fn put32(v: &mut Vec<u8>, at: usize, x: u32) {
    v[at..at + 4].copy_from_slice(&x.to_le_bytes());
}

fn put64(v: &mut Vec<u8>, at: usize, x: u64) {
    v[at..at + 8].copy_from_slice(&x.to_le_bytes());
}

struct Seg {
    p_type: u32,
    offset: u64,
    vaddr: u64,
    filesz: u64,
    memsz: u64,
}

fn image(len: usize, e_type: u16, entry: u64, segs: &[Seg]) -> Vec<u8> {
    let mut v = vec![0u8; len];
    for (i, b) in v.iter_mut().enumerate() {
        *b = (i % 251) as u8;
    }
    v[0..4].copy_from_slice(&[0x7F, b'E', b'L', b'F']);
    v[4] = 2;
    v[5] = 1;
    put16(&mut v, 16, e_type);
    put16(&mut v, 18, 62);
    put32(&mut v, 20, 1);
    put64(&mut v, 24, entry);
    put64(&mut v, 32, 64);
    put16(&mut v, 52, 64);
    put16(&mut v, 54, 56);
    put16(&mut v, 56, segs.len() as u16);
    for (i, s) in segs.iter().enumerate() {
        let at = 64 + 56 * i;
        put32(&mut v, at, s.p_type);
        put32(&mut v, at + 4, 5);
        put64(&mut v, at + 8, s.offset);
        put64(&mut v, at + 16, s.vaddr);
        put64(&mut v, at + 24, s.vaddr);
        put64(&mut v, at + 32, s.filesz);
        put64(&mut v, at + 40, s.memsz);
        put64(&mut v, at + 48, 0x1000);
    }
    v
}

fn pie() -> Vec<u8> {
    image(4096, 3, 0x40, &[Seg { p_type: 1, offset: 0, vaddr: 0, filesz: 4096, memsz: 8192 }])
}

#[test]
fn pie_with_one_segment_loads() {
    let file = pie();
    let base = 0x400000usize;
    let (entry, mem) = load_elf(&file, base).unwrap();
    assert_eq!(entry, base + 0x40);
    assert_eq!(mem.len(), 8192);
    assert_eq!(&mem[..4096], &file[..]);
    assert!(mem[4096..].iter().all(|&b| b == 0));
}

#[test]
fn header_fields_are_decoded() {
    let file = pie();
    let elf = Elf::parse(&file).ok().unwrap();
    assert!(elf.is_pie());
    assert_eq!(elf.entry_offset(), 0x40);
    assert_eq!(elf.program_header_count(), 1);
    assert_eq!(elf.header.e_phoff, 64);
    assert_eq!(elf.header.e_phentsize, 56);
    assert_eq!(elf.header.e_machine, 62);
    let ph = elf.program_header(0).unwrap();
    assert_eq!(
        ph,
        Elf64ProgramHeader {
            p_type: 1,
            p_flags: 5,
            p_offset: 0,
            p_vaddr: 0,
            p_paddr: 0,
            p_filesz: 4096,
            p_memsz: 8192,
            p_align: 0x1000
        }
    );
    assert_eq!(elf.program_header(1), Err(ElfError::InvalidProgramHeader));
    assert_eq!(elf.memory_requirements(), Ok((0, 8192)));
    assert_eq!(elf.segment_data(&ph).len(), 4096);
    assert_eq!(elf.loadable_segments(), vec![ph]);
}

#[test]
fn each_validation_error() {
    assert_eq!(Elf::parse(&[0u8; 63]).err(), Some(ElfError::TooSmall));
    let mut f = pie();
    f[0] = 0;
    assert_eq!(Elf::parse(&f).err(), Some(ElfError::InvalidMagic));
    let mut f = pie();
    f[4] = 1;
    assert_eq!(Elf::parse(&f).err(), Some(ElfError::Not64Bit));
    let mut f = pie();
    f[5] = 2;
    assert_eq!(Elf::parse(&f).err(), Some(ElfError::NotLittleEndian));
    let mut f = pie();
    f[16] = 1;
    assert_eq!(Elf::parse(&f).err(), Some(ElfError::NotExecutable));
    let mut f = pie();
    f[18] = 3;
    assert_eq!(Elf::parse(&f).err(), Some(ElfError::NotX86_64));
    // the first failing check decides
    let mut f = pie();
    f[4] = 1;
    f[18] = 3;
    assert_eq!(Elf::parse(&f).err(), Some(ElfError::Not64Bit));
}

#[test]
fn executable_type_is_accepted_and_not_pie() {
    let f = image(256, 2, 0x1000, &[Seg { p_type: 1, offset: 0, vaddr: 0x1000, filesz: 16, memsz: 16 }]);
    let elf = Elf::parse(&f).ok().unwrap();
    assert!(!elf.is_pie());
    assert_eq!(load_elf(&f, 0x500000).unwrap().0, 0x500000);
}

#[test]
fn no_loadable_segment() {
    let f = image(256, 3, 0, &[Seg { p_type: 2, offset: 0, vaddr: 0, filesz: 16, memsz: 16 }]);
    let elf = Elf::parse(&f).ok().unwrap();
    assert_eq!(elf.memory_requirements(), Err(ElfError::NoLoadableSegments));
    assert_eq!(load_elf(&f, 0x400000).err(), Some(ElfError::NoLoadableSegments));
    assert_eq!(memory_span(&vec![]), Err(ElfError::NoLoadableSegments));
}

#[test]
fn span_covers_lowest_to_highest() {
    let f = image(
        512,
        3,
        0x2010,
        &[
            Seg { p_type: 1, offset: 256, vaddr: 0x3000, filesz: 4, memsz: 0x100 },
            Seg { p_type: 6, offset: 0, vaddr: 0x9000, filesz: 4, memsz: 0x100 },
            Seg { p_type: 1, offset: 300, vaddr: 0x2000, filesz: 8, memsz: 8 },
        ],
    );
    let elf = Elf::parse(&f).ok().unwrap();
    assert_eq!(elf.memory_requirements(), Ok((0x2000, 0x1100)));
    let (entry, mem) = load_elf(&f, 0x400000).unwrap();
    assert_eq!(entry, 0x400010);
    assert_eq!(mem.len(), 0x1100);
    assert_eq!(&mem[0..8], &f[300..308]);
    assert_eq!(&mem[0x1000..0x1004], &f[256..260]);
    assert!(mem[8..0x1000].iter().all(|&b| b == 0));
    assert!(mem[0x1004..].iter().all(|&b| b == 0));
}

#[test]
fn malformed_segments_are_refused() {
    // more file bytes than memory bytes
    let f = image(256, 3, 0, &[Seg { p_type: 1, offset: 0, vaddr: 0, filesz: 32, memsz: 16 }]);
    assert_eq!(load_elf(&f, 0x400000).err(), Some(ElfError::InvalidProgramHeader));
    // entry below the lowest segment
    let f = image(256, 3, 0x10, &[Seg { p_type: 1, offset: 0, vaddr: 0x1000, filesz: 16, memsz: 16 }]);
    assert_eq!(load_elf(&f, 0x400000).err(), Some(ElfError::InvalidProgramHeader));
    // segment end does not fit 64 bits
    let f = image(256, 3, 0, &[Seg { p_type: 1, offset: 0, vaddr: u64::MAX, filesz: 0, memsz: 16 }]);
    assert_eq!(
        Elf::parse(&f).ok().unwrap().memory_requirements(),
        Err(ElfError::InvalidProgramHeader)
    );
}

#[test]
fn segment_data_outside_the_file_is_empty() {
    let f = image(256, 3, 0, &[Seg { p_type: 1, offset: 250, vaddr: 0, filesz: 16, memsz: 32 }]);
    let elf = Elf::parse(&f).ok().unwrap();
    let ph = elf.program_header(0).unwrap();
    assert_eq!(elf.segment_data(&ph).len(), 0);
    let (_, mem) = load_elf(&f, 0).unwrap();
    assert_eq!(mem, vec![0u8; 32]);
}

#[test]
fn program_header_table_outside_the_file() {
    let mut f = pie();
    f[32..40].copy_from_slice(&5000u64.to_le_bytes());
    let elf = Elf::parse(&f).ok().unwrap();
    assert_eq!(elf.program_header(0), Err(ElfError::InvalidProgramHeader));
    assert_eq!(elf.loadable_segments(), vec![]);
}
