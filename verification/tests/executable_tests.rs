use ralph_os::elf::ElfError;
use ralph_os::executable::{
    bytes_eq, entry_name, find_executable, find_program_by_addr, find_table,
    find_task_by_program_addr, get_all_task_memory, init, is_initialized, list, load,
    memory_stats, read, register_task_program, register_task_stack, relocate_exec_table, source_name,
    task_alloc, task_free, unload_task, validate_table, ExecError, ExecRegistry, Relocation,
};
use ralph_os::program_alloc::{ProgramAllocator, PROGRAM_REGION_SIZE, PROGRAM_REGION_START};

fn elf_blob() -> Vec<u8> {
    let mut v = vec![0u8; 512];
    v[0..4].copy_from_slice(&[0x7F, b'E', b'L', b'F']);
    v[4] = 2;
    v[5] = 1;
    v[16..18].copy_from_slice(&3u16.to_le_bytes());
    v[18..20].copy_from_slice(&62u16.to_le_bytes());
    v[24..32].copy_from_slice(&0x80u64.to_le_bytes());
    v[32..40].copy_from_slice(&64u64.to_le_bytes());
    v[54..56].copy_from_slice(&56u16.to_le_bytes());
    v[56..58].copy_from_slice(&1u16.to_le_bytes());
    v[64..68].copy_from_slice(&1u32.to_le_bytes());
    v[64 + 32..64 + 40].copy_from_slice(&512u64.to_le_bytes());
    v[64 + 40..64 + 48].copy_from_slice(&10000u64.to_le_bytes());
    for i in 200..512 {
        v[i] = i as u8;
    }
    v
}

/// Memory with a table at offset `at` that lists the given blobs.
fn memory(at: usize, blobs: &[(&str, Vec<u8>)]) -> Vec<u8> {
    let mut mem = vec![0u8; at + 512];
    mem[at..at + 4].copy_from_slice(b"REXE");
    mem[at + 4..at + 8].copy_from_slice(&1u32.to_le_bytes());
    mem[at + 8..at + 12].copy_from_slice(&(blobs.len() as u32).to_le_bytes());
    for (i, (name, blob)) in blobs.iter().enumerate() {
        let offset = mem.len() - at;
        let e = at + 16 + 32 * i;
        mem[e..e + name.len()].copy_from_slice(name.as_bytes());
        mem[e + 16..e + 20].copy_from_slice(&(offset as u32).to_le_bytes());
        mem[e + 20..e + 24].copy_from_slice(&(blob.len() as u32).to_le_bytes());
        mem.extend_from_slice(blob);
        while mem.len() % 512 != at % 512 {
            mem.push(0);
        }
    }
    mem
}

fn booted(mem: &[u8]) -> (ExecRegistry, ProgramAllocator) {
    let mut r = ExecRegistry::new();
    let mut p = ProgramAllocator::new();
    init(&mut r, &mut p, mem).unwrap();
    (r, p)
}

#[test]
fn table_is_found_at_four_byte_steps() {
    let mem = memory(8, &[("hello", elf_blob()), ("demo.bas", b"10 PRINT 1\n".to_vec())]);
    assert!(validate_table(&mem, 8));
    assert!(!validate_table(&mem, 0));
    assert_eq!(find_table(&mem), Some(8));
    let (r, p) = booted(&mem);
    assert!(is_initialized(&r));
    assert_eq!(r.exec_count, 2);
    assert_eq!(list(&r, &mem), vec![b"hello".to_vec(), b"demo.bas".to_vec()]);
    assert_eq!(memory_stats(&p), (0, PROGRAM_REGION_SIZE));
    assert_eq!(entry_name(&mem, 8, 1), b"demo.bas".to_vec());
}

#[test]
fn unaligned_or_invalid_tables_are_not_found() {
    let mem = memory(6, &[("x", vec![1])]);
    assert_eq!(find_table(&mem), None);
    let mut bad_version = memory(0, &[("x", vec![1])]);
    bad_version[4] = 2;
    assert_eq!(find_table(&bad_version), None);
    let mut too_many = memory(0, &[("x", vec![1])]);
    too_many[8] = 16;
    assert_eq!(find_table(&too_many), None);
    let mut zero_size = memory(0, &[("x", vec![1])]);
    zero_size[16 + 20] = 0;
    assert_eq!(find_table(&zero_size), None);
    let mut zero_offset = memory(0, &[("x", vec![1])]);
    zero_offset[16 + 16..16 + 20].copy_from_slice(&[0, 0, 0, 0]);
    assert_eq!(find_table(&zero_offset), None);
    assert_eq!(find_table(&[]), None);
}

#[test]
fn missing_table_means_no_programs() {
    let mem = vec![0u8; 4096];
    let mut r = ExecRegistry::new();
    let mut p = ProgramAllocator::new();
    assert!(!is_initialized(&r));
    assert_eq!(list(&r, &mem), Vec::<Vec<u8>>::new());
    assert_eq!(read(&r, &mem, b"x").err(), Some(ExecError::NotInitialized));
    assert_eq!(load(&r, &mut p, &mem, b"x").err(), Some(ExecError::NotInitialized));
    assert_eq!(init(&mut r, &mut p, &mem), Ok(0));
    assert_eq!(list(&r, &mem), Vec::<Vec<u8>>::new());
    assert_eq!(read(&r, &mem, b"x").err(), Some(ExecError::NoTableFound));
    assert_eq!(load(&r, &mut p, &mem, b"x").err(), Some(ExecError::NoTableFound));
}

#[test]
fn read_returns_the_blob() {
    let mem = memory(0, &[("hello", elf_blob()), ("demo.bas", b"10 PRINT 1\n".to_vec())]);
    let (r, _p) = booted(&mem);
    assert_eq!(read(&r, &mem, b"demo.bas").unwrap(), b"10 PRINT 1\n");
    assert_eq!(read(&r, &mem, b"nope").err(), Some(ExecError::NotFound));
    assert_eq!(find_executable(&r, &mem, b"hello"), Ok((512, 512)));
    assert!(bytes_eq(b"abc", b"abc"));
    assert!(!bytes_eq(b"abc", b"abd"));
    assert!(!bytes_eq(b"abc", b"ab"));
}

#[test]
fn blob_outside_memory_is_an_invalid_table() {
    let mut mem = memory(0, &[("x", vec![1, 2, 3])]);
    mem[16 + 20..16 + 24].copy_from_slice(&100_000u32.to_le_bytes());
    let (r, _p) = booted(&mem);
    assert_eq!(read(&r, &mem, b"x").err(), Some(ExecError::InvalidTable));
}

#[test]
fn load_places_the_image() {
    let mem = memory(0, &[("hello", elf_blob())]);
    let (r, mut p) = booted(&mem);
    let (prog, image) = load(&r, &mut p, &mem, b"hello").ok().unwrap();
    assert_eq!(prog.name, b"hello".to_vec());
    assert_eq!(prog.base_addr, PROGRAM_REGION_START);
    assert_eq!(prog.size, 10000);
    assert_eq!(prog.entry, PROGRAM_REGION_START + 0x80);
    assert_eq!(image.len(), 10000);
    assert_eq!(&image[..512], &elf_blob()[..]);
    assert!(image[512..].iter().all(|&b| b == 0));
    // 10000 bytes take three pages
    assert_eq!(memory_stats(&p), (12288, PROGRAM_REGION_SIZE - 12288));
    // loading makes no ledger entry
    assert_eq!(get_all_task_memory(&r).len(), 0);
}

#[test]
fn load_failures_leave_nothing_allocated() {
    let mut broken = elf_blob();
    broken[64 + 32..64 + 40].copy_from_slice(&20000u64.to_le_bytes());
    let mem = memory(
        0,
        &[("text", b"not an elf".to_vec()), ("magic", vec![0u8; 100]), ("broken", broken), ("hello", elf_blob())],
    );
    let (r, mut p) = booted(&mem);
    assert_eq!(load(&r, &mut p, &mem, b"text").err(), Some(ExecError::ElfError(ElfError::TooSmall)));
    assert_eq!(
        load(&r, &mut p, &mem, b"magic").err(),
        Some(ExecError::ElfError(ElfError::InvalidMagic))
    );
    assert_eq!(
        load(&r, &mut p, &mem, b"broken").err(),
        Some(ExecError::ElfError(ElfError::InvalidProgramHeader))
    );
    assert_eq!(load(&r, &mut p, &mem, b"absent").err(), Some(ExecError::NotFound));
    assert_eq!(memory_stats(&p), (0, PROGRAM_REGION_SIZE));
    p.allocate(PROGRAM_REGION_SIZE - 4096).unwrap();
    assert_eq!(load(&r, &mut p, &mem, b"hello").err(), Some(ExecError::AllocationFailed));
    assert_eq!(memory_stats(&p).1, 4096);
}

#[test]
fn ledger_tracks_what_a_task_holds() {
    let mem = vec![0u8; 64];
    let (mut r, mut p) = booted(&mem);
    let stack5 = p.allocate(16384).unwrap();
    let stack2 = p.allocate(16384).unwrap();
    register_task_stack(&mut r, 5, stack5, 16384);
    register_task_stack(&mut r, 2, stack2, 16384);
    let code = p.allocate(8192).unwrap();
    register_task_program(&mut r, 5, code, 8192, b"hello");
    register_task_program(&mut r, 9, 0x900000, 4096, b"ghost");
    let h1 = task_alloc(&mut r, &mut p, 5, 100).unwrap();
    let h2 = task_alloc(&mut r, &mut p, 5, 5000).unwrap();
    assert_eq!(task_alloc(&mut r, &mut p, 5, 0), None);
    let all = get_all_task_memory(&r);
    assert_eq!(all.len(), 2);
    // entries come in ascending task-id order
    assert_eq!(all[0].task_id, 2);
    assert_eq!(all[0].stack, (stack2, 16384));
    assert_eq!(all[0].program, None);
    assert_eq!(all[1].task_id, 5);
    assert_eq!(all[1].program, Some((code, 8192, b"hello".to_vec())));
    assert_eq!(all[1].heap_blocks, vec![(h1, 4096), (h2, 8192)]);

    assert_eq!(find_task_by_program_addr(&r, stack2 + 100), Some(2));
    assert_eq!(find_task_by_program_addr(&r, code + 8191), Some(5));
    assert_eq!(find_task_by_program_addr(&r, h2 + 8191), Some(5));
    assert_eq!(find_task_by_program_addr(&r, h2 + 8192), None);
    assert_eq!(find_program_by_addr(&r, code + 1), Some((code, code + 8192, b"hello".to_vec())));
    assert_eq!(find_program_by_addr(&r, stack5), None);
}

#[test]
fn task_free_checks_ownership() {
    let mem = vec![0u8; 64];
    let (mut r, mut p) = booted(&mem);
    register_task_stack(&mut r, 1, 0, 0);
    register_task_stack(&mut r, 2, 0, 0);
    let a = task_alloc(&mut r, &mut p, 1, 4096).unwrap();
    let used = memory_stats(&p).0;
    // another task cannot free it, nor can an unknown task
    assert!(!task_free(&mut r, &mut p, 2, a));
    assert!(!task_free(&mut r, &mut p, 3, a));
    assert!(!task_free(&mut r, &mut p, 1, a + 8));
    assert_eq!(memory_stats(&p).0, used);
    assert!(task_free(&mut r, &mut p, 1, a));
    assert_eq!(memory_stats(&p).0, 0);
    assert!(!task_free(&mut r, &mut p, 1, a));
}

#[test]
fn unload_releases_heap_program_and_stack() {
    let mem = vec![0u8; 64];
    let (mut r, mut p) = booted(&mem);
    let stack = p.allocate(16384).unwrap();
    register_task_stack(&mut r, 1, stack, 16384);
    let code = p.allocate(8192).unwrap();
    register_task_program(&mut r, 1, code, 8192, b"hello");
    task_alloc(&mut r, &mut p, 1, 4096).unwrap();
    task_alloc(&mut r, &mut p, 1, 4096).unwrap();
    let other = p.allocate(4096).unwrap();
    unload_task(&mut r, &mut p, 7);
    assert_eq!(get_all_task_memory(&r).len(), 1);
    unload_task(&mut r, &mut p, 1);
    assert_eq!(get_all_task_memory(&r).len(), 0);
    assert_eq!(memory_stats(&p), (4096, PROGRAM_REGION_SIZE - 4096));
    assert!(p.is_allocated(other, 4096));
}

#[test]
fn registering_a_stack_again_replaces_the_entry() {
    let mem = vec![0u8; 64];
    let (mut r, mut p) = booted(&mem);
    register_task_stack(&mut r, 1, 0x400000, 16384);
    task_alloc(&mut r, &mut p, 1, 4096).unwrap();
    register_task_stack(&mut r, 1, 0x500000, 16384);
    let all = get_all_task_memory(&r);
    assert_eq!(all.len(), 1);
    assert_eq!(all[0].stack, (0x500000, 16384));
    assert!(all[0].heap_blocks.is_empty());
}

#[test]
fn relocation_plan() {
    let mem = memory(0x1000, &[("a", vec![7u8; 700]), ("b", vec![9u8; 10])]);
    let base = 0x100000;
    // blobs at 512 (700 bytes, two blocks) and 1536 (10 bytes, one block)
    let expect = Relocation { source: base + 0x1000, dest: 0x100400, len: 2048 };
    let heap_start = base + mem.len();
    assert!(heap_start > 0x100400 + 2048);
    assert_eq!(relocate_exec_table(&mem, base, 0x100201), Some(expect));
    assert_eq!(relocate_exec_table(&mem, base, 0x100400), Some(expect));
    // no room in front of the heap
    assert_eq!(relocate_exec_table(&mem, base, heap_start - 1024), None);
    assert_eq!(relocate_exec_table(&mem, base, heap_start), None);
    // a blob inside the table block makes the table immovable
    let mut inside = mem.clone();
    inside[0x1000 + 16 + 16..0x1000 + 16 + 20].copy_from_slice(&100u32.to_le_bytes());
    assert_eq!(relocate_exec_table(&inside, base, 0x100201), None);
    assert_eq!(relocate_exec_table(&vec![0u8; 4096], base, 0x100201), None);
}

#[test]
fn source_names_get_an_extension() {
    assert_eq!(source_name(b"foo"), b"foo.bas".to_vec());
    assert_eq!(source_name(b"foo.bas"), b"foo.bas".to_vec());
    assert_eq!(source_name(b"foo.txt"), b"foo.txt".to_vec());
    assert_eq!(source_name(b"a.b.c"), b"a.b.c".to_vec());
    assert_eq!(source_name(b""), b".bas".to_vec());
}
