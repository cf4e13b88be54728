use ralph_os::api::{
    api_alloc, api_exit, api_free, api_net_accept, api_net_available, api_net_close,
    api_net_connect, api_net_listen, api_net_recv, api_net_send, api_net_socket,
    api_net_status, api_sleep, api_yield, argv_size, build_argv, ip_bytes, spawn_program,
    spawn_program_dynamic, Kernel, KernelApi, API_VERSION,
};
use ralph_os::executable::{get_all_task_memory, init, ExecError, ExecRegistry};
use ralph_os::net::arp::update_cache;
use ralph_os::net::interface::{default_config, NetInterface};
use ralph_os::net::tcp::{TcpStack, TcpState};
use ralph_os::program_alloc::{ProgramAllocator, PROGRAM_REGION_SIZE, PROGRAM_REGION_START};
use ralph_os::scheduler::{run, Dispatch, Scheduler};
use ralph_os::task::{TaskState, STACK_SIZE};
use ralph_os::timer::{tick, Timer};

fn elf_blob() -> Vec<u8> {
    let mut v = vec![0u8; 256];
    v[0..4].copy_from_slice(&[0x7F, b'E', b'L', b'F']);
    v[4] = 2;
    v[5] = 1;
    v[16..18].copy_from_slice(&3u16.to_le_bytes());
    v[18..20].copy_from_slice(&62u16.to_le_bytes());
    v[24..32].copy_from_slice(&0x40u64.to_le_bytes());
    v[32..40].copy_from_slice(&64u64.to_le_bytes());
    v[54..56].copy_from_slice(&56u16.to_le_bytes());
    v[56..58].copy_from_slice(&1u16.to_le_bytes());
    v[64..68].copy_from_slice(&1u32.to_le_bytes());
    v[64 + 32..64 + 40].copy_from_slice(&256u64.to_le_bytes());
    v[64 + 40..64 + 48].copy_from_slice(&4096u64.to_le_bytes());
    v
}

fn memory() -> Vec<u8> {
    let mut mem = vec![0u8; 512];
    mem[0..4].copy_from_slice(b"REXE");
    mem[4] = 1;
    mem[8] = 1;
    mem[16..21].copy_from_slice(b"hello");
    mem[32..36].copy_from_slice(&512u32.to_le_bytes());
    mem[36..40].copy_from_slice(&256u32.to_le_bytes());
    mem.extend_from_slice(&elf_blob());
    mem
}

fn kernel(mem: &[u8]) -> Kernel {
    let mut programs = ProgramAllocator::new();
    let mut registry = ExecRegistry::new();
    init(&mut registry, &mut programs, mem).unwrap();
    let mut iface = NetInterface::new(default_config(), [2, 0, 0, 0, 0, 1]);
    update_cache(&mut iface.arp, &[10, 0, 2, 2], &[2, 0, 0, 0, 0, 2], 0);
    Kernel {
        timer: Timer::new(),
        programs,
        registry,
        sched: Scheduler::new(),
        tcp: TcpStack::new(),
        iface,
    }
}

#[test]
fn version_word() {
    let api = KernelApi::new();
    assert_eq!(api.version, API_VERSION);
    assert_eq!(API_VERSION, 4);
    assert!(api.supports_network());
    assert!(!KernelApi { version: 3 }.supports_network());
}

#[test]
fn spawned_program_gets_image_and_arguments() {
    let mem = memory();
    let mut k = kernel(&mem);
    let extra = vec![b"-v".to_vec(), b"x y".to_vec()];
    let sp = spawn_program(&mut k, &mem, "hello", &extra).ok().unwrap();
    assert_eq!(sp.task_id, 0);
    assert_eq!(sp.program.base_addr, PROGRAM_REGION_START);
    assert_eq!(sp.program.size, 4096);
    assert_eq!(sp.program.entry, PROGRAM_REGION_START + 0x40);
    assert_eq!(sp.image.len(), 4096);
    assert_eq!(&sp.image[..256], &elf_blob()[..]);
    let task = &k.sched.tasks[0];
    assert_eq!((task.id, task.name, task.state), (0, "hello", TaskState::Ready));
    assert_eq!(task.context.r12, (PROGRAM_REGION_START + 0x40) as u64);
    assert_eq!(task.stack, (PROGRAM_REGION_START + 4096, STACK_SIZE));
    let base = PROGRAM_REGION_START + 4096 + STACK_SIZE;
    assert_eq!(sp.argv_base, base);
    // three pointers and the null pointer, then the strings
    let mut expect: Vec<u8> = Vec::new();
    for p in [base + 32, base + 38, base + 41, 0] {
        expect.extend_from_slice(&(p as u64).to_le_bytes());
    }
    expect.extend_from_slice(b"hello\0-v\0x y\0");
    assert_eq!(sp.argv, expect);
    let ledger = get_all_task_memory(&k.registry);
    assert_eq!(ledger.len(), 1);
    assert_eq!(ledger[0].stack, task.stack);
    assert_eq!(ledger[0].program, Some((PROGRAM_REGION_START, 4096, b"hello".to_vec())));
    assert_eq!(ledger[0].heap_blocks, vec![(base, 4096)]);

    let second = spawn_program_dynamic(&mut k, &mem, b"hello", &vec![]).ok().unwrap();
    assert_eq!(second.task_id, 1);
    assert_eq!(k.sched.tasks[1].name, "program");
    assert_eq!(second.argv.len(), 16 + 6);
}

#[test]
fn spawn_failures() {
    let mem = memory();
    let mut k = kernel(&mem);
    assert_eq!(spawn_program(&mut k, &mem, "absent", &vec![]).err(), Some(ExecError::NotFound));
    assert_eq!(k.programs.stats().0, 0);
    // room for the image but not for a stack: the image is released again
    k.programs.allocate(PROGRAM_REGION_SIZE - 4096 - 8192).unwrap();
    let used = k.programs.stats().0;
    assert_eq!(spawn_program(&mut k, &mem, "hello", &vec![]).err(), Some(ExecError::AllocationFailed));
    assert_eq!(k.programs.stats().0, used);
    assert!(k.sched.tasks.is_empty());
    let mut k = kernel(&mem);
    k.sched.next_id = u32::MAX;
    assert_eq!(spawn_program(&mut k, &mem, "hello", &vec![]).err(), Some(ExecError::AllocationFailed));
    assert_eq!(k.programs.stats().0, 0);
    // no room for the arguments: the task stays
    let mut k = kernel(&mem);
    k.programs.allocate(PROGRAM_REGION_SIZE - 4096 - STACK_SIZE).unwrap();
    assert_eq!(spawn_program(&mut k, &mem, "hello", &vec![]).err(), Some(ExecError::AllocationFailed));
    assert_eq!(k.sched.tasks.len(), 1);
    assert_eq!(k.programs.stats().1, 0);
}

#[test]
fn argument_block_layout() {
    assert_eq!(argv_size(&vec![]), Some(8));
    assert_eq!(argv_size(&vec![b"ab".to_vec(), vec![]]), Some(24 + 3 + 1));
    assert_eq!(build_argv(0x1000, &vec![]), vec![0u8; 8]);
    let block = build_argv(0x1000, &vec![b"ab".to_vec(), vec![]]);
    let mut expect = Vec::new();
    expect.extend_from_slice(&0x1018u64.to_le_bytes());
    expect.extend_from_slice(&0x101Bu64.to_le_bytes());
    expect.extend_from_slice(&0u64.to_le_bytes());
    expect.extend_from_slice(b"ab\0\0");
    assert_eq!(block, expect);
}

#[test]
fn program_heap_calls() {
    let mem = memory();
    let mut k = kernel(&mem);
    // without a running task there is nobody to allocate for
    assert_eq!(api_alloc(&mut k, 100), 0);
    spawn_program(&mut k, &mem, "hello", &vec![]).ok().unwrap();
    spawn_program(&mut k, &mem, "hello", &vec![]).ok().unwrap();
    run(&mut k.sched);
    let used = k.programs.stats().0;
    assert_eq!(api_alloc(&mut k, 0), 0);
    let p = api_alloc(&mut k, 5000);
    assert_ne!(p, 0);
    assert_eq!(p % 4096, 0);
    assert_eq!(k.programs.stats().0, used + 8192);
    assert_eq!(api_alloc(&mut k, PROGRAM_REGION_SIZE), 0);
    api_free(&mut k, 0);
    api_free(&mut k, p + 4096);
    assert_eq!(k.programs.stats().0, used + 8192);
    // the other task cannot free it
    assert_eq!(api_yield(&mut k), Dispatch::Switch { from: Some(0), to: 1 });
    api_free(&mut k, p);
    assert_eq!(k.programs.stats().0, used + 8192);
    assert_eq!(api_yield(&mut k), Dispatch::Switch { from: Some(1), to: 0 });
    api_free(&mut k, p);
    assert_eq!(k.programs.stats().0, used);
}

#[test]
fn sleep_and_exit_calls() {
    let mem = memory();
    let mut k = kernel(&mem);
    spawn_program(&mut k, &mem, "hello", &vec![]).ok().unwrap();
    run(&mut k.sched);
    for _ in 0..7 {
        tick(&mut k.timer);
    }
    assert_eq!(api_sleep(&mut k, 25), Dispatch::Wait);
    assert_eq!(k.sched.tasks[0].wake_at, 7 + 3);
    for _ in 0..3 {
        tick(&mut k.timer);
    }
    assert_eq!(api_yield(&mut k), Dispatch::Switch { from: Some(0), to: 0 });
    assert_eq!(api_exit(&mut k), Dispatch::Halt);
    assert_eq!(k.programs.stats(), (0, PROGRAM_REGION_SIZE));
    assert!(get_all_task_memory(&k.registry).is_empty());
}

#[test]
fn network_calls() {
    let mem = memory();
    let mut k = kernel(&mem);
    assert_eq!(api_net_status(&k, -1), -1);
    assert_eq!(api_net_status(&k, 0), 2);
    assert_eq!(api_net_socket(&mut k), 0);
    assert_eq!(api_net_socket(&mut k), 1);
    assert_eq!(api_net_status(&k, 0), 2);
    assert_eq!(api_net_connect(&mut k, -1, 0x01020304, 80), -1);
    assert_eq!(api_net_connect(&mut k, 2, 0x01020304, 80), -1);
    assert_eq!(api_net_connect(&mut k, 0, 0x01020304, 80), 0);
    assert_eq!(k.tcp.connections[0].remote_ip, [1, 2, 3, 4]);
    assert_eq!(ip_bytes(0x0A000202), [10, 0, 2, 2]);
    assert_eq!(api_net_status(&k, 0), 0);
    assert_eq!(api_net_send(&mut k, 0, b"early"), -1);
    assert_eq!(api_net_send(&mut k, -3, b"x"), -1);
    k.tcp.connections[0].state = TcpState::Established;
    assert_eq!(api_net_status(&k, 0), 1);
    assert_eq!(api_net_send(&mut k, 0, b"hello"), 5);
    assert_eq!(api_net_send(&mut k, 0, &vec![0u8; 3000]), 2043);
    assert_eq!(api_net_send(&mut k, 0, b"x"), 0);
    let mut buf = vec![0u8; 8];
    assert_eq!(api_net_recv(&mut k, 0, &mut buf), 0);
    assert_eq!(api_net_available(&k, 0), 0);
    k.tcp.connections[0].rx_buffer.write(b"abc");
    assert_eq!(api_net_available(&k, 0), 3);
    assert_eq!(api_net_available(&k, -1), 0);
    assert_eq!(api_net_recv(&mut k, 0, &mut buf), 3);
    assert_eq!(&buf[..3], b"abc");
    assert_eq!(api_net_recv(&mut k, -1, &mut buf), -1);

    assert_eq!(api_net_listen(&mut k, 1, 8080), 0);
    assert_eq!(api_net_listen(&mut k, 1, 8081), -1);
    assert_eq!(api_net_listen(&mut k, -1, 8081), -1);
    assert_eq!(api_net_status(&k, 1), 0);
    assert_eq!(api_net_accept(&k, 1), 0);
    assert_eq!(api_net_accept(&k, -1), -1);
    assert_eq!(api_net_socket(&mut k), 2);
    k.tcp.connections[2].state = TcpState::Established;
    k.tcp.connections[2].local_port = 8080;
    assert_eq!(api_net_accept(&k, 1), 2);

    api_net_close(&mut k, 0);
    assert_eq!(k.tcp.connections[0].state, TcpState::FinWait1);
    assert_eq!(api_net_status(&k, 0), 2);
    api_net_close(&mut k, 1);
    assert!(!k.tcp.connections[1].in_use);
    api_net_close(&mut k, -1);
    assert_eq!(api_net_socket(&mut k), 1);
    assert_eq!(api_net_socket(&mut k), 3);
    assert_eq!(api_net_socket(&mut k), -1);
}
