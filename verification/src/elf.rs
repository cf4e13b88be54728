//! ELF64 images: header validation, program headers and the memory image
//! that loading produces.

use vstd::prelude::*;
use vstd::slice::slice_subrange;
use crate::bytes::{
    le16_at, le32_at, le64_at, spec_le16_at, spec_le32_at, spec_le64_at,
};

verus! {

/// Size of the ELF64 file header.
pub const ELF_HEADER_SIZE: usize = 64;

/// Size of an ELF64 program header.
pub const PROGRAM_HEADER_SIZE: usize = 56;

/// Class byte of a 64-bit image.
pub const ELFCLASS64: u8 = 2;

/// Data-encoding byte of a little-endian image.
pub const ELFDATA2LSB: u8 = 1;

/// Type of a fixed-address executable.
pub const ET_EXEC: u16 = 2;

/// Type of a shared object, which position-independent executables use.
pub const ET_DYN: u16 = 3;

/// Machine number of x86_64.
pub const EM_X86_64: u16 = 62;

/// Type of a loadable segment.
pub const PT_LOAD: u32 = 1;

/// ELF64 file header.
#[derive(Debug, Clone, Copy)]
pub struct Elf64Header {
    pub e_ident: [u8; 16],
    pub e_type: u16,
    pub e_machine: u16,
    pub e_version: u32,
    pub e_entry: u64,
    pub e_phoff: u64,
    pub e_shoff: u64,
    pub e_flags: u32,
    pub e_ehsize: u16,
    pub e_phentsize: u16,
    pub e_phnum: u16,
    pub e_shentsize: u16,
    pub e_shnum: u16,
    pub e_shstrndx: u16,
}

/// ELF64 program header.
#[derive(Debug, Clone, Copy, PartialEq, Eq, Structural)]
pub struct Elf64ProgramHeader {
    pub p_type: u32,
    pub p_flags: u32,
    pub p_offset: u64,
    pub p_vaddr: u64,
    pub p_paddr: u64,
    pub p_filesz: u64,
    pub p_memsz: u64,
    pub p_align: u64,
}

/// Why an image was refused.
#[derive(Debug, Clone, Copy, PartialEq, Eq, Structural)]
pub enum ElfError {
    /// Too short to hold a file header.
    TooSmall,
    /// The magic number is wrong.
    InvalidMagic,
    /// Not a 64-bit image.
    Not64Bit,
    /// Not little-endian.
    NotLittleEndian,
    /// Neither an executable nor a position-independent executable.
    NotExecutable,
    /// Not for x86_64.
    NotX86_64,
    /// A program header lies outside the image or describes a segment
    /// whose extent cannot be represented.
    InvalidProgramHeader,
    /// The image has no loadable segment.
    NoLoadableSegments,
}

/// A validated image: the raw bytes and the decoded file header.
pub struct Elf<'a> {
    /// The whole image.
    pub data: &'a [u8],
    /// The decoded file header.
    pub header: Elf64Header,
}

/// The first reason to refuse `data`, if there is one.
pub open spec fn spec_parse_error(data: Seq<u8>) -> Option<ElfError> {
    if data.len() < ELF_HEADER_SIZE {
        Some(ElfError::TooSmall)
    } else if !(data[0] == 0x7F && data[1] == 0x45 && data[2] == 0x4C && data[3] == 0x46) {
        Some(ElfError::InvalidMagic)
    } else if data[4] != ELFCLASS64 {
        Some(ElfError::Not64Bit)
    } else if data[5] != ELFDATA2LSB {
        Some(ElfError::NotLittleEndian)
    } else if spec_le16_at(data, 16) != ET_EXEC && spec_le16_at(data, 16) != ET_DYN {
        Some(ElfError::NotExecutable)
    } else if spec_le16_at(data, 18) != EM_X86_64 {
        Some(ElfError::NotX86_64)
    } else {
        None
    }
}

/// Whether `header` is the decoding of the first 64 bytes of `data`.
pub open spec fn header_matches(header: Elf64Header, data: Seq<u8>) -> bool {
    &&& header.e_ident@ == data.subrange(0, 16)
    &&& header.e_type == spec_le16_at(data, 16)
    &&& header.e_machine == spec_le16_at(data, 18)
    &&& header.e_version == spec_le32_at(data, 20)
    &&& header.e_entry == spec_le64_at(data, 24)
    &&& header.e_phoff == spec_le64_at(data, 32)
    &&& header.e_shoff == spec_le64_at(data, 40)
    &&& header.e_flags == spec_le32_at(data, 48)
    &&& header.e_ehsize == spec_le16_at(data, 52)
    &&& header.e_phentsize == spec_le16_at(data, 54)
    &&& header.e_phnum == spec_le16_at(data, 56)
    &&& header.e_shentsize == spec_le16_at(data, 58)
    &&& header.e_shnum == spec_le16_at(data, 60)
    &&& header.e_shstrndx == spec_le16_at(data, 62)
}

/// The program header decoded from the 56 bytes at `at`.
pub open spec fn spec_program_header_at(data: Seq<u8>, at: int) -> Elf64ProgramHeader {
    Elf64ProgramHeader {
        p_type: spec_le32_at(data, at) as u32,
        p_flags: spec_le32_at(data, at + 4) as u32,
        p_offset: spec_le64_at(data, at + 8) as u64,
        p_vaddr: spec_le64_at(data, at + 16) as u64,
        p_paddr: spec_le64_at(data, at + 24) as u64,
        p_filesz: spec_le64_at(data, at + 32) as u64,
        p_memsz: spec_le64_at(data, at + 40) as u64,
        p_align: spec_le64_at(data, at + 48) as u64,
    }
}

/// Number of program headers that the file header of `data` announces.
pub open spec fn spec_phnum(data: Seq<u8>) -> int {
    spec_le16_at(data, 56)
}

/// The entry point that the file header of `data` names.
pub open spec fn spec_entry(data: Seq<u8>) -> int {
    spec_le64_at(data, 24)
}

/// File offset of program header `index`.
pub open spec fn spec_ph_offset(data: Seq<u8>, index: int) -> int {
    spec_le64_at(data, 32) + index * spec_le16_at(data, 54)
}

/// Program header `index`, if the table has such an entry and it lies
/// inside the image.
pub open spec fn spec_program_header(data: Seq<u8>, index: int) -> Option<Elf64ProgramHeader> {
    if 0 <= index < spec_phnum(data) && spec_ph_offset(data, index) + PROGRAM_HEADER_SIZE
        <= data.len() {
        Some(spec_program_header_at(data, spec_ph_offset(data, index)))
    } else {
        None
    }
}

/// The loadable segments among the first `n` program headers, in table
/// order; entries that lie outside the image are passed over.
pub open spec fn spec_loadable(data: Seq<u8>, n: int) -> Seq<Elf64ProgramHeader>
    decreases n,
{
    if n <= 0 {
        Seq::empty()
    } else {
        let before = spec_loadable(data, n - 1);
        match spec_program_header(data, n - 1) {
            Some(ph) => if ph.p_type == PT_LOAD {
                before.push(ph)
            } else {
                before
            },
            None => before,
        }
    }
}

/// Lowest start address among the first `n` segments; `n` is at least 1.
pub open spec fn spec_lowest(segs: Seq<Elf64ProgramHeader>, n: int) -> int
    decreases n,
{
    if n <= 1 {
        segs[0].p_vaddr as int
    } else {
        let low = spec_lowest(segs, n - 1);
        if segs[n - 1].p_vaddr < low {
            segs[n - 1].p_vaddr as int
        } else {
            low
        }
    }
}

/// Highest end address among the first `n` segments.
pub open spec fn spec_highest(segs: Seq<Elf64ProgramHeader>, n: int) -> int
    decreases n,
{
    if n <= 0 {
        0
    } else {
        let high = spec_highest(segs, n - 1);
        let end = segs[n - 1].p_vaddr + segs[n - 1].p_memsz;
        if end > high {
            end
        } else {
            high
        }
    }
}

/// Whether every one of the first `n` segments has an end address that a
/// 64-bit word can hold.
pub open spec fn spec_extents_fit(segs: Seq<Elf64ProgramHeader>, n: int) -> bool {
    forall|k: int| 0 <= k < n ==> (#[trigger] segs[k]).p_vaddr + segs[k].p_memsz <= u64::MAX
}

/// All loadable segments of an image, in table order.
pub open spec fn spec_segments(data: Seq<u8>) -> Seq<Elf64ProgramHeader> {
    spec_loadable(data, spec_phnum(data))
}

/// What loading needs: the lowest segment address and the span from it to
/// the highest segment end.
pub open spec fn spec_memory_requirements(segs: Seq<Elf64ProgramHeader>) -> Result<
    (u64, usize),
    ElfError,
> {
    if segs.len() == 0 {
        Err(ElfError::NoLoadableSegments)
    } else if !spec_extents_fit(segs, segs.len() as int) || spec_highest(segs, segs.len() as int)
        - spec_lowest(segs, segs.len() as int) > usize::MAX {
        Err(ElfError::InvalidProgramHeader)
    } else {
        Ok(
            (
                spec_lowest(segs, segs.len() as int) as u64,
                (spec_highest(segs, segs.len() as int) - spec_lowest(segs, segs.len() as int))
                    as usize,
            ),
        )
    }
}

/// The file bytes of a segment: `p_filesz` bytes at `p_offset`, or nothing
/// if that range leaves the image.
pub open spec fn spec_segment_data(data: Seq<u8>, ph: Elf64ProgramHeader) -> Seq<u8> {
    if ph.p_offset + ph.p_filesz <= data.len() {
        data.subrange(ph.p_offset as int, ph.p_offset + ph.p_filesz)
    } else {
        Seq::empty()
    }
}

impl<'a> Elf<'a> {
    /// The header is the decoding of the image's first bytes, and the image
    /// passed validation.
    pub open spec fn wf(&self) -> bool {
        &&& spec_parse_error(self.data@).is_none()
        &&& header_matches(self.header, self.data@)
    }

    /// Validates an image: it must hold a file header with the ELF magic,
    /// be 64-bit, little-endian, an executable or position-independent
    /// executable, and for x86_64. The checks are made in that order and
    /// the first that fails decides the error.
    pub fn parse(data: &'a [u8]) -> (r: Result<Elf<'a>, ElfError>)
        ensures
            match r {
                Ok(elf) => spec_parse_error(data@).is_none() && elf.data@ == data@ && elf.wf(),
                Err(e) => spec_parse_error(data@) == Some(e),
            },
    {
        if data.len() < ELF_HEADER_SIZE {
            return Err(ElfError::TooSmall);
        }
        if !(data[0] == 0x7F && data[1] == 0x45 && data[2] == 0x4C && data[3] == 0x46) {
            return Err(ElfError::InvalidMagic);
        }
        if data[4] != ELFCLASS64 {
            return Err(ElfError::Not64Bit);
        }
        if data[5] != ELFDATA2LSB {
            return Err(ElfError::NotLittleEndian);
        }
        let e_type: u16 = le16_at(data, 16);
        if e_type != ET_EXEC && e_type != ET_DYN {
            return Err(ElfError::NotExecutable);
        }
        let e_machine: u16 = le16_at(data, 18);
        if e_machine != EM_X86_64 {
            return Err(ElfError::NotX86_64);
        }
        let e_ident: [u8; 16] = [
            data[0],
            data[1],
            data[2],
            data[3],
            data[4],
            data[5],
            data[6],
            data[7],
            data[8],
            data[9],
            data[10],
            data[11],
            data[12],
            data[13],
            data[14],
            data[15],
        ];
        proof {
            assert(e_ident@ =~= data@.subrange(0, 16));
        }
        let header = Elf64Header {
            e_ident,
            e_type,
            e_machine,
            e_version: le32_at(data, 20),
            e_entry: le64_at(data, 24),
            e_phoff: le64_at(data, 32),
            e_shoff: le64_at(data, 40),
            e_flags: le32_at(data, 48),
            e_ehsize: le16_at(data, 52),
            e_phentsize: le16_at(data, 54),
            e_phnum: le16_at(data, 56),
            e_shentsize: le16_at(data, 58),
            e_shnum: le16_at(data, 60),
            e_shstrndx: le16_at(data, 62),
        };
        Ok(Elf { data, header })
    }

    /// Whether the image is position independent.
    pub fn is_pie(&self) -> (r: bool)
        ensures
            r == (self.header.e_type == ET_DYN),
    {
        self.header.e_type == ET_DYN
    }

    /// The entry point, relative to the load base for a
    /// position-independent image.
    pub fn entry_offset(&self) -> (r: u64)
        ensures
            r == self.header.e_entry,
    {
        self.header.e_entry
    }

    /// Number of entries in the program header table.
    pub fn program_header_count(&self) -> (r: usize)
        ensures
            r == self.header.e_phnum,
    {
        self.header.e_phnum as usize
    }

    /// Program header `index`; `InvalidProgramHeader` if the table has no
    /// such entry or the entry lies outside the image.
    pub fn program_header(&self, index: usize) -> (r: Result<Elf64ProgramHeader, ElfError>)
        requires
            self.wf(),
        ensures
            match r {
                Ok(ph) => spec_program_header(self.data@, index as int) == Some(ph),
                Err(e) => e == ElfError::InvalidProgramHeader && spec_program_header(
                    self.data@,
                    index as int,
                ).is_none(),
            },
    {
        if index >= self.header.e_phnum as usize {
            return Err(ElfError::InvalidProgramHeader);
        }
        let len: usize = self.data.len();
        // index < 65536 and e_phentsize < 65536: the product fits 64 bits
        assert(index * self.header.e_phentsize <= 0xFFFF * 0xFFFF) by (nonlinear_arith)
            requires
                index <= 0xFFFF,
                self.header.e_phentsize <= 0xFFFF,
        ;
        let rel: u64 = (index as u64) * (self.header.e_phentsize as u64);
        if self.header.e_phoff > u64::MAX - rel {
            return Err(ElfError::InvalidProgramHeader);
        }
        let offset: u64 = self.header.e_phoff + rel;
        if len < PROGRAM_HEADER_SIZE || offset > (len - PROGRAM_HEADER_SIZE) as u64 {
            return Err(ElfError::InvalidProgramHeader);
        }
        let at: usize = offset as usize;
        Ok(
            Elf64ProgramHeader {
                p_type: le32_at(self.data, at),
                p_flags: le32_at(self.data, at + 4),
                p_offset: le64_at(self.data, at + 8),
                p_vaddr: le64_at(self.data, at + 16),
                p_paddr: le64_at(self.data, at + 24),
                p_filesz: le64_at(self.data, at + 32),
                p_memsz: le64_at(self.data, at + 40),
                p_align: le64_at(self.data, at + 48),
            },
        )
    }

    /// The loadable segments in table order.
    pub fn loadable_segments(&self) -> (segs: Vec<Elf64ProgramHeader>)
        requires
            self.wf(),
        ensures
            segs@ == spec_segments(self.data@),
    {
        let n: usize = self.program_header_count();
        let mut segs: Vec<Elf64ProgramHeader> = Vec::new();
        let mut i: usize = 0;
        while i < n
            invariant
                self.wf(),
                n == spec_phnum(self.data@),
                i <= n,
                segs@ == spec_loadable(self.data@, i as int),
            decreases n - i,
        {
            match self.program_header(i) {
                Ok(ph) => {
                    if ph.p_type == PT_LOAD {
                        segs.push(ph);
                    }
                },
                Err(_) => {},
            }
            i += 1;
        }
        segs
    }

    /// The lowest segment address and the span of memory from it to the
    /// highest segment end. `NoLoadableSegments` if nothing is loadable;
    /// `InvalidProgramHeader` if a segment end or the span cannot be
    /// represented.
    pub fn memory_requirements(&self) -> (r: Result<(u64, usize), ElfError>)
        requires
            self.wf(),
        ensures
            r == spec_memory_requirements(spec_segments(self.data@)),
    {
        let segs: Vec<Elf64ProgramHeader> = self.loadable_segments();
        memory_span(&segs)
    }

    /// The file bytes of a segment, or nothing if they leave the image.
    pub fn segment_data(&self, phdr: &Elf64ProgramHeader) -> (r: &'a [u8])
        ensures
            r@ == spec_segment_data(self.data@, *phdr),
    {
        let len: usize = self.data.len();
        if phdr.p_offset <= len as u64 && phdr.p_filesz <= (len as u64) - phdr.p_offset {
            let offset: usize = phdr.p_offset as usize;
            let size: usize = phdr.p_filesz as usize;
            slice_subrange(self.data, offset, offset + size)
        } else {
            slice_subrange(self.data, 0, 0)
        }
    }
}

/// The lowest address and the span of a list of segments.
pub fn memory_span(segs: &Vec<Elf64ProgramHeader>) -> (r: Result<(u64, usize), ElfError>)
    ensures
        r == spec_memory_requirements(segs@),
{
    let n: usize = segs.len();
    if n == 0 {
        return Err(ElfError::NoLoadableSegments);
    }
    let mut lowest: u64 = segs[0].p_vaddr;
    let mut highest: u64 = 0;
    let mut i: usize = 0;
    while i < n
        invariant
            n == segs@.len(),
            n > 0,
            i <= n,
            spec_extents_fit(segs@, i as int),
            i > 0 ==> lowest == spec_lowest(segs@, i as int),
            i == 0 ==> lowest == segs@[0].p_vaddr,
            highest == spec_highest(segs@, i as int),
            i > 0 ==> lowest <= highest,
        decreases n - i,
    {
        let ph: Elf64ProgramHeader = segs[i];
        if ph.p_memsz > u64::MAX - ph.p_vaddr {
            proof {
                assert(!spec_extents_fit(segs@, n as int));
            }
            return Err(ElfError::InvalidProgramHeader);
        }
        let end: u64 = ph.p_vaddr + ph.p_memsz;
        if ph.p_vaddr < lowest {
            lowest = ph.p_vaddr;
        }
        if end > highest {
            highest = end;
        }
        i += 1;
    }
    let span: u64 = highest - lowest;
    if span > usize::MAX as u64 {
        return Err(ElfError::InvalidProgramHeader);
    }
    Ok((lowest, span as usize))
}

/// The memory image after one segment is placed at `dest`: its file bytes
/// `src` first, then zeros from `dest + filesz` up to `dest + memsz`.
pub open spec fn spec_place(image: Seq<u8>, src: Seq<u8>, dest: int, filesz: int, memsz: int) -> Seq<
    u8,
> {
    Seq::new(
        image.len(),
        |i: int|
            if dest <= i < dest + src.len() {
                src[i - dest]
            } else if dest + filesz <= i < dest + memsz {
                0u8
            } else {
                image[i]
            },
    )
}

/// The memory image of `total` bytes after the first `n` segments are
/// placed, each at its address relative to `lowest`, over zeroed memory.
pub open spec fn spec_image(
    data: Seq<u8>,
    segs: Seq<Elf64ProgramHeader>,
    lowest: int,
    total: int,
    n: int,
) -> Seq<u8>
    decreases n,
{
    if n <= 0 {
        Seq::new(total as nat, |i: int| 0u8)
    } else {
        spec_place(
            spec_image(data, segs, lowest, total, n - 1),
            spec_segment_data(data, segs[n - 1]),
            segs[n - 1].p_vaddr - lowest,
            segs[n - 1].p_filesz as int,
            segs[n - 1].p_memsz as int,
        )
    }
}

/// Whether each of the first `n` segments has no more file bytes than
/// memory bytes.
pub open spec fn spec_sizes_ok(segs: Seq<Elf64ProgramHeader>, n: int) -> bool {
    forall|k: int| 0 <= k < n ==> (#[trigger] segs[k]).p_filesz <= segs[k].p_memsz
}

/// The result of loading `data` at `base_addr`: the absolute entry point
/// and the memory image, or the reason why the image cannot be loaded.
pub open spec fn spec_load_elf(data: Seq<u8>, base_addr: usize) -> Result<
    (usize, Seq<u8>),
    ElfError,
> {
    let segs = spec_segments(data);
    match spec_parse_error(data) {
        Some(e) => Err(e),
        None => match spec_memory_requirements(segs) {
            Err(e) => Err(e),
            Ok((lowest, total)) => if !spec_sizes_ok(segs, segs.len() as int) || spec_entry(data)
                < lowest || base_addr + (spec_entry(data) - lowest) > usize::MAX {
                Err(ElfError::InvalidProgramHeader)
            } else {
                Ok(
                    (
                        (base_addr + (spec_entry(data) - lowest)) as usize,
                        spec_image(data, segs, lowest as int, total as int, segs.len() as int),
                    ),
                )
            },
        },
    }
}

/// Every segment starts at or above the lowest address and ends at or
/// below the highest end.
pub proof fn lemma_segment_in_span(segs: Seq<Elf64ProgramHeader>, n: int, k: int)
    requires
        0 <= k < n <= segs.len(),
    ensures
        spec_lowest(segs, n) <= segs[k].p_vaddr,
        segs[k].p_vaddr + segs[k].p_memsz <= spec_highest(segs, n),
        0 <= spec_lowest(segs, n),
    decreases n,
{
    if n > 1 {
        if k < n - 1 {
            lemma_segment_in_span(segs, n - 1, k);
        } else {
            lemma_segment_in_span(segs, n - 1, 0);
        }
    }
}

/// Places one segment into the image.
pub fn place_segment(image: &mut Vec<u8>, src: &[u8], dest: usize, filesz: usize, memsz: usize)
    requires
        dest + memsz <= old(image)@.len(),
        src@.len() <= filesz,
        filesz <= memsz,
    ensures
        final(image)@ == spec_place(old(image)@, src@, dest as int, filesz as int, memsz as int),
{
    let n: usize = src.len();
    let len: usize = image.len();
    let mut j: usize = 0;
    while j < n
        invariant
            n == src@.len(),
            len == image@.len(),
            len == old(image)@.len(),
            dest + memsz <= len,
            n <= filesz <= memsz,
            j <= n,
            forall|i: int| 0 <= i < len ==> image@[i] == (if dest <= i < dest + j {
                src@[i - dest]
            } else {
                old(image)@[i]
            }),
        decreases n - j,
    {
        image.set(dest + j, src[j]);
        j += 1;
    }
    let mut z: usize = filesz;
    while z < memsz
        invariant
            n == src@.len(),
            len == image@.len(),
            len == old(image)@.len(),
            dest + memsz <= len,
            n <= filesz <= z <= memsz,
            forall|i: int| 0 <= i < len ==> image@[i] == (if dest <= i < dest + n {
                src@[i - dest]
            } else if dest + filesz <= i < dest + z {
                0u8
            } else {
                old(image)@[i]
            }),
        decreases memsz - z,
    {
        image.set(dest + z, 0u8);
        z += 1;
    }
    proof {
        assert(image@ =~= spec_place(
            old(image)@,
            src@,
            dest as int,
            filesz as int,
            memsz as int,
        ));
    }
}

/// A zeroed buffer of `total` bytes.
pub fn zeroed(total: usize) -> (v: Vec<u8>)
    ensures
        v@ == Seq::new(total as nat, |i: int| 0u8),
{
    let mut v: Vec<u8> = Vec::new();
    let mut i: usize = 0;
    while i < total
        invariant
            i <= total,
            v@.len() == i,
            forall|k: int| 0 <= k < i ==> v@[k] == 0u8,
        decreases total - i,
    {
        v.push(0u8);
        i += 1;
    }
    proof {
        assert(v@ =~= Seq::new(total as nat, |i: int| 0u8));
    }
    v
}

/// Loads an image for execution at `base_addr`.
///
/// Each loadable segment is placed at its address relative to the lowest
/// one: its file bytes are copied and the rest of its memory size is
/// zeroed. The result is the absolute entry point together with the
/// memory image that belongs at `base_addr`. An image is refused with
/// `InvalidProgramHeader` if a segment has more file bytes than memory
/// bytes or the entry point lies below the lowest segment.
pub fn load_elf(data: &[u8], base_addr: usize) -> (r: Result<(usize, Vec<u8>), ElfError>)
    ensures
        match r {
            Ok((entry, image)) => spec_load_elf(data@, base_addr) == Ok::<
                (usize, Seq<u8>),
                ElfError,
            >((entry, image@)),
            Err(e) => spec_load_elf(data@, base_addr) == Err::<(usize, Seq<u8>), ElfError>(e),
        },
{
    let elf = match Elf::parse(data) {
        Ok(elf) => elf,
        Err(e) => {
            return Err(e);
        },
    };
    load_parsed(&elf, base_addr)
}

/// Loads a validated image for execution at `base_addr`.
#[verifier::loop_isolation(false)]
pub fn load_parsed(elf: &Elf, base_addr: usize) -> (r: Result<(usize, Vec<u8>), ElfError>)
    requires
        elf.wf(),
    ensures
        match r {
            Ok((entry, image)) => spec_load_elf(elf.data@, base_addr) == Ok::<
                (usize, Seq<u8>),
                ElfError,
            >((entry, image@)),
            Err(e) => spec_load_elf(elf.data@, base_addr) == Err::<(usize, Seq<u8>), ElfError>(e),
        },
{
    let segs: Vec<Elf64ProgramHeader> = elf.loadable_segments();
    let (lowest, total) = match memory_span(&segs) {
        Ok(r) => r,
        Err(e) => {
            return Err(e);
        },
    };
    let n: usize = segs.len();
    let entry_offset: u64 = elf.entry_offset();
    if entry_offset < lowest {
        return Err(ElfError::InvalidProgramHeader);
    }
    let rel: u64 = entry_offset - lowest;
    if rel > usize::MAX as u64 || rel as usize > usize::MAX - base_addr {
        return Err(ElfError::InvalidProgramHeader);
    }
    let entry: usize = base_addr + rel as usize;
    let mut image: Vec<u8> = zeroed(total);
    let mut i: usize = 0;
    while i < n
        invariant
            n == segs@.len(),
            n > 0,
            i <= n,
            spec_memory_requirements(segs@) == Ok::<(u64, usize), ElfError>((lowest, total)),
            spec_sizes_ok(segs@, i as int),
            image@.len() == total,
            image@ == spec_image(elf.data@, segs@, lowest as int, total as int, i as int),
        decreases n - i,
    {
        let ph: Elf64ProgramHeader = segs[i];
        proof {
            lemma_segment_in_span(segs@, n as int, i as int);
        }
        if ph.p_filesz > ph.p_memsz {
            proof {
                assert(!spec_sizes_ok(segs@, n as int));
            }
            return Err(ElfError::InvalidProgramHeader);
        }
        let src: &[u8] = elf.segment_data(&ph);
        let dest: usize = (ph.p_vaddr - lowest) as usize;
        place_segment(&mut image, src, dest, ph.p_filesz as usize, ph.p_memsz as usize);
        i += 1;
    }
    Ok((entry, image))
}

} // verus!
