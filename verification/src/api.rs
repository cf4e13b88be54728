//! The kernel-call interface for loaded programs.
//!
//! Programs enter the kernel through a table of calls with a version
//! word in front. This module holds the kernel state that those calls
//! work on and what each call does; the table itself, with its calling
//! convention, belongs to the code that hands it to programs.

use vstd::prelude::*;
use vstd::string::StringSliceAdditionalSpecFns;
use crate::bytes::{push_all, push_le64, spec_le64_bytes};
use crate::executable::{
    load, register_task_program, spec_free_extent, spec_load, spec_push_heap,
    spec_register_program, spec_register_stack, spec_task_free, task_alloc, task_free, ExecError,
    ExecRegistry, LoadedProgram,
};
use crate::net::interface::NetInterface;
use crate::net::tcp::{spec_valid_sock, TcpStack, TcpState, MAX_CONNECTIONS};
use crate::program_alloc::{spec_page_round, ProgramAllocator, PAGE_SIZE};
use crate::region::{spec_take, Block, NO_OWNER};
use crate::scheduler::{current_task_id, Dispatch, Scheduler};
use crate::task::{TaskId, TaskState, STACK_SIZE};
use crate::timer::Timer;

verus! {

/// Version of the call table.
pub const API_VERSION: u32 = 4;

/// First version whose table holds the network calls.
pub const NETWORK_API_VERSION: u32 = 4;

/// Bytes of one entry of an argument vector.
pub const POINTER_SIZE: usize = 8;

/// The head of the call table: its version. Fields are only ever added
/// behind the existing ones, and the version grows with every change, so
/// a program checks the version before it uses a later field.
#[derive(Debug, Clone, Copy, PartialEq, Eq, Structural)]
pub struct KernelApi {
    pub version: u32,
}

impl KernelApi {
    /// The table of this kernel.
    pub fn new() -> (api: KernelApi)
        ensures
            api.version == API_VERSION,
    {
        KernelApi { version: API_VERSION }
    }

    /// Whether the table holds the network calls.
    pub fn supports_network(&self) -> (r: bool)
        ensures
            r == (self.version >= NETWORK_API_VERSION),
    {
        self.version >= NETWORK_API_VERSION
    }
}

/// Status of a socket as programs see it: 0 while connecting or
/// listening, 1 when connected, 2 when closed or closing.
pub open spec fn spec_status(state: TcpState) -> i32 {
    match state {
        TcpState::SynSent | TcpState::SynReceived | TcpState::Listen => 0,
        TcpState::Established => 1,
        _ => 2,
    }
}

/// The four bytes of an address given as a number in network byte order.
pub open spec fn spec_ip_bytes(ip: u32) -> Seq<u8> {
    crate::bytes::spec_be32_bytes(ip)
}

/// Total length of the first `n` argument strings, each with its
/// terminating NUL.
pub open spec fn strings_len(args: Seq<Seq<u8>>, n: int) -> int
    decreases n,
{
    if n <= 0 {
        0
    } else {
        strings_len(args, n - 1) + args[n - 1].len() + 1
    }
}

/// Bytes of the pointer array of an argument vector: one pointer per
/// argument and the terminating null pointer.
pub open spec fn pointers_len(args: Seq<Seq<u8>>) -> int {
    (args.len() + 1) * POINTER_SIZE
}

/// Bytes of a whole argument block.
pub open spec fn spec_argv_size(args: Seq<Seq<u8>>) -> int {
    pointers_len(args) + strings_len(args, args.len() as int)
}

/// The first `n` pointers of the argument block at `base`: pointer `i`
/// is the address of string `i`, which lies behind the pointer array and
/// the earlier strings.
pub open spec fn spec_pointers(base: int, args: Seq<Seq<u8>>, n: int) -> Seq<u8>
    decreases n,
{
    if n <= 0 {
        Seq::empty()
    } else {
        spec_pointers(base, args, n - 1) + spec_le64_bytes(
            (base + pointers_len(args) + strings_len(args, n - 1)) as u64,
        )
    }
}

/// The first `n` argument strings, each followed by a NUL.
pub open spec fn spec_strings(args: Seq<Seq<u8>>, n: int) -> Seq<u8>
    decreases n,
{
    if n <= 0 {
        Seq::empty()
    } else {
        spec_strings(args, n - 1) + args[n - 1] + seq![0u8]
    }
}

/// The argument block of a program at address `base`: the pointer array,
/// the null pointer that ends it, and the strings.
pub open spec fn spec_argv_block(base: int, args: Seq<Seq<u8>>) -> Seq<u8> {
    spec_pointers(base, args, args.len() as int) + spec_le64_bytes(0) + spec_strings(
        args,
        args.len() as int,
    )
}

/// The arguments as plain values.
pub open spec fn args_view(args: Seq<Vec<u8>>) -> Seq<Seq<u8>> {
    args.map_values(|a: Vec<u8>| a@)
}

/// Bytes of the argument block for `args`, or `None` if the size does
/// not fit the address type.
pub fn argv_size(args: &Vec<Vec<u8>>) -> (r: Option<usize>)
    ensures
        match r {
            Some(n) => n == spec_argv_size(args_view(args@)),
            None => spec_argv_size(args_view(args@)) > usize::MAX,
        },
        spec_argv_size(args_view(args@)) > 0,
{
    let n: usize = args.len();
    let ghost view = args_view(args@);
    let mut strings: usize = 0;
    let mut i: usize = 0;
    while i < n
        invariant
            n == args@.len(),
            view == args_view(args@),
            i <= n,
            strings == strings_len(view, i as int),
        decreases n - i,
    {
        let len: usize = args[i].len();
        if len == usize::MAX || strings > usize::MAX - (len + 1) {
            proof {
                lemma_strings_len_grows(view, i as int + 1, n as int);
            }
            return None;
        }
        strings = strings + len + 1;
        i += 1;
    }
    if n >= usize::MAX / POINTER_SIZE {
        return None;
    }
    let pointers: usize = (n + 1) * POINTER_SIZE;
    if strings > usize::MAX - pointers {
        return None;
    }
    Some(pointers + strings)
}

/// The total string length only grows with the number of strings.
proof fn lemma_strings_len_grows(args: Seq<Seq<u8>>, a: int, b: int)
    requires
        0 <= a <= b,
    ensures
        strings_len(args, a) <= strings_len(args, b),
        0 <= strings_len(args, a),
    decreases b,
{
    if a < b {
        lemma_strings_len_grows(args, a, b - 1);
    } else if a > 0 {
        lemma_strings_len_grows(args, a - 1, a - 1);
    }
}

/// Builds the argument block that a program finds at address `base`.
pub fn build_argv(base: usize, args: &Vec<Vec<u8>>) -> (out: Vec<u8>)
    requires
        base + spec_argv_size(args_view(args@)) <= usize::MAX,
    ensures
        out@ == spec_argv_block(base as int, args_view(args@)),
{
    let n: usize = args.len();
    let ghost view = args_view(args@);
    proof {
        lemma_strings_len_grows(view, 0, n as int);
    }
    let pointers: usize = (n + 1) * POINTER_SIZE;
    let mut out: Vec<u8> = Vec::new();
    let mut offset: usize = 0;
    let mut i: usize = 0;
    while i < n
        invariant
            n == args@.len(),
            view == args_view(args@),
            pointers == pointers_len(view),
            base + spec_argv_size(view) <= usize::MAX,
            i <= n,
            offset == strings_len(view, i as int),
            out@ == spec_pointers(base as int, view, i as int),
        decreases n - i,
    {
        proof {
            lemma_strings_len_grows(view, i as int, n as int);
            lemma_strings_len_grows(view, i as int + 1, n as int);
        }
        push_le64(&mut out, (base + pointers + offset) as u64);
        offset = offset + args[i].len() + 1;
        i += 1;
    }
    push_le64(&mut out, 0);
    let ghost head = out@;
    let mut j: usize = 0;
    while j < n
        invariant
            n == args@.len(),
            view == args_view(args@),
            j <= n,
            out@ == head + spec_strings(view, j as int),
        decreases n - j,
    {
        let ghost before = out@;
        push_all(&mut out, args[j].as_slice());
        out.push(0u8);
        j += 1;
        proof {
            assert(out@ =~= head + spec_strings(view, j as int));
        }
    }
    out
}

/// The kernel state that the calls of programs work on.
pub struct Kernel {
    /// Time base.
    pub timer: Timer,
    /// Program-region allocator.
    pub programs: ProgramAllocator,
    /// Loader registry and ledger.
    pub registry: ExecRegistry,
    /// Scheduler.
    pub sched: Scheduler,
    /// TCP connection table.
    pub tcp: TcpStack,
    /// Network interface.
    pub iface: NetInterface,
}

impl Kernel {
    /// Every part is well formed.
    pub open spec fn wf(&self) -> bool {
        &&& self.programs.wf()
        &&& self.registry.wf()
        &&& self.sched.wf()
        &&& self.tcp.wf()
        &&& self.iface.wf()
    }
}

/// The calling task gives up the CPU.
pub fn api_yield(kernel: &mut Kernel) -> (d: Dispatch)
    requires
        old(kernel).wf(),
    ensures
        final(kernel).wf(),
        final(kernel).sched.next_id == old(kernel).sched.next_id,
        final(kernel).sched.idle_context == old(kernel).sched.idle_context,
        (final(kernel).sched.tasks@, final(kernel).sched.current as int, d)
            == crate::scheduler::spec_yield(
            old(kernel).sched.tasks@,
            old(kernel).sched.current as int,
            old(kernel).timer.tick_count,
        ),
        final(kernel).timer == old(kernel).timer,
        final(kernel).programs == old(kernel).programs,
        final(kernel).registry == old(kernel).registry,
        final(kernel).tcp == old(kernel).tcp,
        final(kernel).iface == old(kernel).iface,
{
    let now: u64 = crate::timer::ticks(&kernel.timer);
    crate::scheduler::yield_now(&mut kernel.sched, now)
}

/// The calling task sleeps for at least `ms` milliseconds.
pub fn api_sleep(kernel: &mut Kernel, ms: u64) -> (d: Dispatch)
    requires
        old(kernel).wf(),
    ensures
        final(kernel).wf(),
        final(kernel).sched.next_id == old(kernel).sched.next_id,
        final(kernel).sched.idle_context == old(kernel).sched.idle_context,
        (final(kernel).sched.tasks@, final(kernel).sched.current as int, d)
            == crate::scheduler::spec_schedule(
            crate::scheduler::with_sleep(
                old(kernel).sched.tasks@,
                old(kernel).sched.current as int,
                crate::scheduler::spec_wake_at(
                    old(kernel).timer.tick_count,
                    ((ms + 9) / 10) as u64,
                ),
            ),
            old(kernel).sched.current as int,
            old(kernel).timer.tick_count,
        ),
        final(kernel).timer == old(kernel).timer,
        final(kernel).programs == old(kernel).programs,
        final(kernel).registry == old(kernel).registry,
        final(kernel).tcp == old(kernel).tcp,
        final(kernel).iface == old(kernel).iface,
{
    let now: u64 = crate::timer::ticks(&kernel.timer);
    crate::scheduler::sleep_ms(&mut kernel.sched, now, ms)
}

/// The calling task ends; what it holds in the program region is
/// released.
pub fn api_exit(kernel: &mut Kernel) -> (d: Dispatch)
    requires
        old(kernel).wf(),
    ensures
        final(kernel).wf(),
        final(kernel).sched.next_id == old(kernel).sched.next_id,
        final(kernel).sched.idle_context == old(kernel).sched.idle_context,
        (final(kernel).sched.tasks@, final(kernel).sched.current as int, d)
            == crate::scheduler::spec_schedule(
            crate::scheduler::with_state(
                old(kernel).sched.tasks@,
                old(kernel).sched.current as int,
                TaskState::Finished,
            ),
            old(kernel).sched.current as int,
            old(kernel).timer.tick_count,
        ),
        final(kernel).timer == old(kernel).timer,
        final(kernel).registry.initialized == old(kernel).registry.initialized,
        final(kernel).registry.table == old(kernel).registry.table,
        final(kernel).registry.exec_count == old(kernel).registry.exec_count,
        final(kernel).tcp == old(kernel).tcp,
        final(kernel).iface == old(kernel).iface,
        old(kernel).sched.tasks@.len() == 0
            ==> final(kernel).registry.ledger() == old(kernel).registry.ledger()
                && final(kernel).programs.blocks() == old(kernel).programs.blocks(),
        old(kernel).sched.tasks@.len() > 0 ==> ({
            let id = old(kernel).sched.tasks@[old(kernel).sched.current as int].id;
            let l = old(kernel).registry.ledger();
            let k = crate::executable::ledger_slot(l, id, 0);
            if old(kernel).registry.initialized && crate::executable::ledger_has(l, id) {
                final(kernel).registry.ledger() == l.remove(k) && final(kernel).programs.blocks()
                    == crate::executable::spec_free_extents(
                    old(kernel).programs.blocks(),
                    crate::executable::spec_task_extents(l[k]),
                    crate::executable::spec_task_extents(l[k]).len() as int,
                )
            } else {
                final(kernel).registry.ledger() == l
                    && final(kernel).programs.blocks() == old(kernel).programs.blocks()
            }
        }),
{
    let now: u64 = crate::timer::ticks(&kernel.timer);
    crate::scheduler::exit_task(&mut kernel.sched, &mut kernel.registry, &mut kernel.programs, now)
}

/// The task on whose behalf a call is made.
pub open spec fn spec_caller(sched: Scheduler) -> Option<TaskId> {
    if sched.current < sched.tasks@.len() && sched.tasks@[sched.current as int].state
        == TaskState::Running {
        Some(sched.tasks@[sched.current as int].id)
    } else {
        None
    }
}

/// Allocates `size` bytes of program heap for the calling task, rounded
/// up to whole pages. The result is the address, or 0 for a request of
/// nothing, without a calling task, or when the program region has no
/// room.
pub fn api_alloc(kernel: &mut Kernel, size: usize) -> (addr: usize)
    requires
        old(kernel).wf(),
    ensures
        final(kernel).wf(),
        final(kernel).timer == old(kernel).timer,
        final(kernel).registry.initialized == old(kernel).registry.initialized,
        final(kernel).registry.table == old(kernel).registry.table,
        final(kernel).registry.exec_count == old(kernel).registry.exec_count,
        final(kernel).sched == old(kernel).sched,
        final(kernel).tcp == old(kernel).tcp,
        final(kernel).iface == old(kernel).iface,
        size == 0 || spec_caller(old(kernel).sched).is_none()
            ==> addr == 0
                && final(kernel).registry.ledger() == old(kernel).registry.ledger()
                && final(kernel).programs.blocks()
            == old(kernel).programs.blocks(),
        size > 0 && spec_caller(old(kernel).sched).is_some()
            ==> match crate::program_alloc::spec_allocate_index(
            old(kernel).programs.blocks(),
            size,
        ) {
            None => addr == 0 && final(kernel).registry.ledger() == old(kernel).registry.ledger()
                && final(kernel).programs.blocks() == old(kernel).programs.blocks(),
            Some(i) => {
                &&& addr == old(kernel).programs.blocks()[i].start
                &&& addr != 0
                &&& final(kernel).programs.blocks() == spec_take(
                    old(kernel).programs.blocks(),
                    i,
                    spec_page_round(size),
                    PAGE_SIZE as int,
                    NO_OWNER,
                )
                &&& final(kernel).registry.ledger() == spec_push_heap(
                    old(kernel).registry.ledger(),
                    spec_caller(old(kernel).sched).unwrap(),
                    addr,
                    spec_page_round(size) as usize,
                )
            },
        },
{
    if size == 0 {
        return 0;
    }
    let task_id: TaskId = match current_task_id(&kernel.sched) {
        Some(id) => id,
        None => {
            return 0;
        },
    };
    match task_alloc(&mut kernel.registry, &mut kernel.programs, task_id, size) {
        Some(addr) => {
            proof {
                let i = crate::program_alloc::spec_allocate_index(
                    old(kernel).programs.blocks(),
                    size,
                ).unwrap();
                crate::region::lemma_first_fit(
                    old(kernel).programs.blocks(),
                    spec_page_round(size),
                    0,
                );
                crate::region::lemma_block_in_region(
                    old(kernel).programs.blocks(),
                    old(kernel).programs.region.start as int,
                    old(kernel).programs.region.end as int,
                    i,
                );
            }
            addr
        },
        None => 0,
    }
}

/// Frees program heap of the calling task. A null pointer, a pointer that
/// the ledger does not list for the calling task, and a call without a
/// calling task change nothing.
pub fn api_free(kernel: &mut Kernel, ptr: usize)
    requires
        old(kernel).wf(),
    ensures
        final(kernel).wf(),
        final(kernel).timer == old(kernel).timer,
        final(kernel).registry.initialized == old(kernel).registry.initialized,
        final(kernel).registry.table == old(kernel).registry.table,
        final(kernel).registry.exec_count == old(kernel).registry.exec_count,
        final(kernel).sched == old(kernel).sched,
        final(kernel).tcp == old(kernel).tcp,
        final(kernel).iface == old(kernel).iface,
        ptr == 0 || spec_caller(old(kernel).sched).is_none() ==> final(kernel).registry.ledger()
            == old(kernel).registry.ledger()
                && final(kernel).programs.blocks() == old(kernel).programs.blocks(),
        ptr != 0 && spec_caller(old(kernel).sched).is_some() ==> ({
            let freed = spec_task_free(
                old(kernel).registry.ledger(),
                old(kernel).programs.blocks(),
                spec_caller(old(kernel).sched).unwrap(),
                ptr,
            );
            final(kernel).registry.ledger() == freed.1 && final(kernel).programs.blocks() == freed.2
        }),
{
    if ptr == 0 {
        return ;
    }
    let task_id: TaskId = match current_task_id(&kernel.sched) {
        Some(id) => id,
        None => {
            return ;
        },
    };
    task_free(&mut kernel.registry, &mut kernel.programs, task_id, ptr);
}

/// Takes a socket. The result is its handle, or -1 if none is free.
pub fn api_net_socket(kernel: &mut Kernel) -> (r: i32)
    requires
        old(kernel).wf(),
    ensures
        final(kernel).wf(),
        final(kernel).tcp.next_port == old(kernel).tcp.next_port,
        final(kernel).timer == old(kernel).timer,
        final(kernel).sched == old(kernel).sched,
        final(kernel).programs == old(kernel).programs,
        final(kernel).registry == old(kernel).registry,
        final(kernel).iface == old(kernel).iface,
        r == (if crate::net::tcp::unused_index(old(kernel).tcp.conns(), 0) < MAX_CONNECTIONS {
            crate::net::tcp::unused_index(old(kernel).tcp.conns(), 0) as i32
        } else {
            -1i32
        }),
        r >= 0 ==> final(kernel).tcp.conns() == old(kernel).tcp.conns().update(
            r as int,
            crate::net::tcp::spec_taken_tcb(),
        ),
        r < 0 ==> final(kernel).tcp.conns() == old(kernel).tcp.conns(),
{
    match crate::net::tcp::socket(&mut kernel.tcp) {
        Some(sock) => sock as i32,
        None => -1,
    }
}

/// The bytes of an address given as a number in network byte order.
pub fn ip_bytes(ip: u32) -> (out: [u8; 4])
    ensures
        out@ == spec_ip_bytes(ip),
{
    let out: [u8; 4] = [
        (ip / 0x100_0000) as u8,
        ((ip / 0x1_0000) % 256) as u8,
        ((ip / 0x100) % 256) as u8,
        (ip % 256) as u8,
    ];
    proof {
        assert(out@ =~= spec_ip_bytes(ip));
    }
    out
}

/// Starts connecting socket `sock` to `ip`, `port`. The result is 0 if
/// the SYN went out and -1 otherwise.
pub fn api_net_connect(kernel: &mut Kernel, sock: i32, ip: u32, port: u16) -> (r: i32)
    requires
        old(kernel).wf(),
    ensures
        final(kernel).wf(),
        final(kernel).timer == old(kernel).timer,
        final(kernel).sched == old(kernel).sched,
        final(kernel).programs == old(kernel).programs,
        final(kernel).registry == old(kernel).registry,
        r == 0 || r == -1,
        sock < 0 || !spec_valid_sock(old(kernel).tcp.conns(), sock as usize)
            || old(kernel).tcp.conns()[sock as int].state != TcpState::Closed
            ==> r == -1
                && final(kernel).tcp.conns() == old(kernel).tcp.conns()
                && final(kernel).tcp.next_port == old(kernel).tcp.next_port
                && final(kernel).iface@ == old(kernel).iface@,
        sock >= 0
            && spec_valid_sock(old(kernel).tcp.conns(), sock as usize)
            && old(kernel).tcp.conns()[sock as int].state == TcpState::Closed
            ==> ({
            let after = crate::net::tcp::spec_connect(
                old(kernel).tcp.conns()[sock as int],
                old(kernel).iface@,
                old(kernel).timer.tick_count,
                old(kernel).iface.config.ip,
                old(kernel).tcp.next_port,
                crate::net::interface::ip_of(spec_ip_bytes(ip)),
                port,
            );
            &&& final(kernel).tcp.conns() == old(kernel).tcp.conns().update(sock as int, after.0)
            &&& final(kernel).iface@ == after.1
            &&& (r == 0) == after.2
            &&& final(kernel).tcp.next_port == crate::net::tcp::spec_next_port(
                old(kernel).tcp.next_port,
            )
        }),
{
    if sock < 0 {
        return -1;
    }
    let remote: [u8; 4] = ip_bytes(ip);
    proof {
        crate::net::interface::lemma_ip_of(remote);
    }
    let now: u64 = crate::timer::ticks(&kernel.timer);
    if crate::net::tcp::connect(
        &mut kernel.tcp,
        &mut kernel.iface,
        now,
        sock as usize,
        &remote,
        port,
    ) {
        0
    } else {
        -1
    }
}

/// Status of socket `sock`: 0 while connecting or listening, 1 when
/// connected, 2 when closed or closing, -1 for a negative handle.
pub fn api_net_status(kernel: &Kernel, sock: i32) -> (r: i32)
    requires
        kernel.wf(),
    ensures
        r == (if sock < 0 {
            -1i32
        } else if spec_valid_sock(kernel.tcp.conns(), sock as usize) {
            spec_status(kernel.tcp.conns()[sock as int].state)
        } else {
            2i32
        }),
{
    if sock < 0 {
        return -1;
    }
    match crate::net::tcp::get_state(&kernel.tcp, sock as usize) {
        TcpState::SynSent => 0,
        TcpState::SynReceived => 0,
        TcpState::Listen => 0,
        TcpState::Established => 1,
        _ => 2,
    }
}

/// Writes to socket `sock` without blocking. The result is the number of
/// bytes taken, 0 if the send buffer is full, -1 on a negative handle or
/// a socket that cannot send.
pub fn api_net_send(kernel: &mut Kernel, sock: i32, data: &[u8]) -> (r: i32)
    requires
        old(kernel).wf(),
    ensures
        final(kernel).wf(),
        final(kernel).timer == old(kernel).timer,
        final(kernel).sched == old(kernel).sched,
        final(kernel).programs == old(kernel).programs,
        final(kernel).registry == old(kernel).registry,
        final(kernel).tcp.next_port == old(kernel).tcp.next_port,
        final(kernel).iface == old(kernel).iface,
        sock < 0 || !crate::net::tcp::spec_can_send(old(kernel).tcp.conns(), sock as usize) ==> r
            == -1 && final(kernel).tcp.conns() == old(kernel).tcp.conns(),
        sock >= 0 && crate::net::tcp::spec_can_send(old(kernel).tcp.conns(), sock as usize)
            ==> ({
            let c = old(kernel).tcp.conns()[sock as int];
            let n = crate::net::tcp::min2(
                data@.len() as int,
                crate::net::tcp::TX_BUFFER_SIZE - c.tx.len(),
            );
            &&& r == n
            &&& final(kernel).tcp.conns() == old(kernel).tcp.conns().update(
                sock as int,
                crate::net::tcp::Tcb { tx: c.tx + data@.subrange(0, n), ..c },
            )
        }),
{
    if sock < 0 {
        return -1;
    }
    proof {
        if sock as usize >= MAX_CONNECTIONS {
        } else {
            crate::net::tcp::lemma_wf_tcb_ok(&kernel.tcp.connections@[sock as int]);
        }
    }
    crate::net::tcp::send(&mut kernel.tcp, sock as usize, data) as i32
}

/// Reads from socket `sock` into the front of `buf` without blocking.
/// The result is the number of bytes read, 0 if none wait, -1 on a
/// negative handle, a closed socket, or the end of the stream.
pub fn api_net_recv(kernel: &mut Kernel, sock: i32, buf: &mut Vec<u8>) -> (r: i32)
    requires
        old(kernel).wf(),
    ensures
        final(kernel).wf(),
        final(kernel).timer == old(kernel).timer,
        final(kernel).sched == old(kernel).sched,
        final(kernel).programs == old(kernel).programs,
        final(kernel).registry == old(kernel).registry,
        final(kernel).tcp.next_port == old(kernel).tcp.next_port,
        final(kernel).iface == old(kernel).iface,
        sock < 0
            || !spec_valid_sock(old(kernel).tcp.conns(), sock as usize)
            || old(kernel).tcp.conns()[sock as int].state == TcpState::Closed
            ==> r == -1
                && final(kernel).tcp.conns() == old(kernel).tcp.conns()
                && final(buf)@ == old(buf)@,
        sock >= 0
            && spec_valid_sock(old(kernel).tcp.conns(), sock as usize)
            && old(kernel).tcp.conns()[sock as int].state != TcpState::Closed
            ==> ({
            let c = old(kernel).tcp.conns()[sock as int];
            let n = crate::net::tcp::min2(old(buf)@.len() as int, c.rx.len() as int);
            &&& final(buf)@ == c.rx.subrange(0, n) + old(buf)@.subrange(n, old(buf)@.len() as int)
            &&& final(kernel).tcp.conns() == old(kernel).tcp.conns().update(
                sock as int,
                crate::net::tcp::Tcb {
                    rx: c.rx.subrange(n, c.rx.len() as int),
                    rcv_wnd: (crate::net::tcp::RX_BUFFER_SIZE - (c.rx.len() - n)) as u16,
                    ..c
                },
            )
            &&& r == (if n > 0 {
                n
            } else if c.remote_closed {
                -1
            } else {
                0
            })
        }),
{
    if sock < 0 {
        return -1;
    }
    proof {
        if sock as usize >= MAX_CONNECTIONS {
        } else {
            crate::net::tcp::lemma_wf_tcb_ok(&kernel.tcp.connections@[sock as int]);
        }
    }
    crate::net::tcp::recv(&mut kernel.tcp, sock as usize, buf) as i32
}

/// Received bytes that wait on socket `sock`.
pub fn api_net_available(kernel: &Kernel, sock: i32) -> (r: i32)
    requires
        kernel.wf(),
    ensures
        r == (if sock >= 0 && spec_valid_sock(kernel.tcp.conns(), sock as usize) {
            kernel.tcp.conns()[sock as int].rx.len() as int
        } else {
            0
        }),
{
    if sock < 0 {
        return 0;
    }
    proof {
        if sock as usize >= MAX_CONNECTIONS {
        } else {
            crate::net::tcp::lemma_wf_tcb_ok(&kernel.tcp.connections@[sock as int]);
        }
    }
    crate::net::tcp::available(&kernel.tcp, sock as usize) as i32
}

/// Starts the graceful close of socket `sock`.
pub fn api_net_close(kernel: &mut Kernel, sock: i32)
    requires
        old(kernel).wf(),
    ensures
        final(kernel).wf(),
        final(kernel).timer == old(kernel).timer,
        final(kernel).sched == old(kernel).sched,
        final(kernel).programs == old(kernel).programs,
        final(kernel).registry == old(kernel).registry,
        final(kernel).tcp.next_port == old(kernel).tcp.next_port,
        sock < 0 || !spec_valid_sock(old(kernel).tcp.conns(), sock as usize)
            ==> final(kernel).tcp.conns() == old(kernel).tcp.conns()
                && final(kernel).iface@ == old(kernel).iface@,
        sock >= 0 && spec_valid_sock(old(kernel).tcp.conns(), sock as usize) ==> ({
            let after = crate::net::tcp::spec_close(
                old(kernel).tcp.conns()[sock as int],
                old(kernel).iface@,
                old(kernel).timer.tick_count,
            );
            final(kernel).tcp.conns() == old(kernel).tcp.conns().update(sock as int, after.0)
                && final(kernel).iface@ == after.1
        }),
{
    if sock >= 0 {
        let now: u64 = crate::timer::ticks(&kernel.timer);
        crate::net::tcp::close(&mut kernel.tcp, &mut kernel.iface, now, sock as usize);
    }
}

/// Makes socket `sock` listen on `port`. The result is 0 on success and
/// -1 otherwise.
pub fn api_net_listen(kernel: &mut Kernel, sock: i32, port: u16) -> (r: i32)
    requires
        old(kernel).wf(),
    ensures
        final(kernel).wf(),
        final(kernel).timer == old(kernel).timer,
        final(kernel).sched == old(kernel).sched,
        final(kernel).programs == old(kernel).programs,
        final(kernel).registry == old(kernel).registry,
        final(kernel).tcp.next_port == old(kernel).tcp.next_port,
        final(kernel).iface == old(kernel).iface,
        r == (if sock >= 0 && spec_valid_sock(old(kernel).tcp.conns(), sock as usize) && old(kernel).tcp.conns()[sock as int].state == TcpState::Closed {
            0i32
        } else {
            -1i32
        }),
        r != 0 ==> final(kernel).tcp.conns() == old(kernel).tcp.conns(),
        r == 0 ==> final(kernel).tcp.conns() == old(kernel).tcp.conns().update(
            sock as int,
            crate::net::tcp::Tcb {
                local_ip: old(kernel).iface.config.ip,
                local_port: port,
                state: TcpState::Listen,
                ..old(kernel).tcp.conns()[sock as int]
            },
        ),
{
    if sock < 0 {
        return -1;
    }
    if crate::net::tcp::listen(&mut kernel.tcp, &kernel.iface, sock as usize, port) {
        0
    } else {
        -1
    }
}

/// Accepts on listening socket `sock` without blocking. The result is
/// the handle of an established connection, 0 if none waits, -1 on a
/// negative handle.
pub fn api_net_accept(kernel: &Kernel, sock: i32) -> (r: i32)
    requires
        kernel.wf(),
    ensures
        sock < 0 ==> r == -1,
        sock >= 0 && (!spec_valid_sock(kernel.tcp.conns(), sock as usize)
            || kernel.tcp.conns()[sock as int].state != TcpState::Listen) ==> r == 0,
        sock >= 0 && spec_valid_sock(kernel.tcp.conns(), sock as usize)
            && kernel.tcp.conns()[sock as int].state == TcpState::Listen ==> ({
            let i = crate::net::tcp::accept_index(
                kernel.tcp.conns(),
                sock as usize,
                kernel.tcp.conns()[sock as int].local_port,
                0,
            );
            r == (if i < MAX_CONNECTIONS {
                i as i32
            } else {
                0i32
            })
        }),
{
    if sock < 0 {
        return -1;
    }
    proof {
        if spec_valid_sock(kernel.tcp.conns(), sock as usize) {
            crate::net::tcp::lemma_accept_index(
                kernel.tcp.conns(),
                sock as usize,
                kernel.tcp.conns()[sock as int].local_port,
                0,
            );
        }
    }
    match crate::net::tcp::accept(&kernel.tcp, sock as usize) {
        Some(new_sock) => new_sock as i32,
        None => 0,
    }
}

/// A program that has been loaded and given a task.
pub struct SpawnedProgram {
    /// The task that will run it.
    pub task_id: TaskId,
    /// Where it was placed.
    pub program: LoadedProgram,
    /// The memory image that belongs at its base address.
    pub image: Vec<u8>,
    /// Address of its argument block, which is also its argument vector.
    pub argv_base: usize,
    /// The argument block that belongs at that address.
    pub argv: Vec<u8>,
}

/// The argument vector of a program: its name, then the extra arguments.
pub open spec fn spec_args(name: Seq<u8>, extra: Seq<Seq<u8>>) -> Seq<Seq<u8>> {
    seq![name] + extra
}

/// The argument vector of a program: its name, then the extra arguments.
pub fn collect_args(name: &[u8], extra_args: &Vec<Vec<u8>>) -> (args: Vec<Vec<u8>>)
    ensures
        args_view(args@) == spec_args(name@, args_view(extra_args@)),
{
    let mut args: Vec<Vec<u8>> = Vec::new();
    let mut first: Vec<u8> = Vec::new();
    push_all(&mut first, name);
    args.push(first);
    let n: usize = extra_args.len();
    let mut i: usize = 0;
    while i < n
        invariant
            n == extra_args@.len(),
            i <= n,
            args@.len() == i + 1,
            args@[0]@ == name@,
            forall|k: int| 0 <= k < i ==> (#[trigger] args@[k + 1])@ == extra_args@[k]@,
        decreases n - i,
    {
        let mut copy: Vec<u8> = Vec::new();
        push_all(&mut copy, extra_args[i].as_slice());
        args.push(copy);
        i += 1;
    }
    proof {
        assert(args_view(args@) =~= spec_args(name@, args_view(extra_args@))) by {
            assert forall|k: int| 0 <= k < args@.len() implies args_view(args@)[k] == spec_args(
                name@,
                args_view(extra_args@),
            )[k] by {
                if k > 0 {
                    assert(args@[(k - 1) + 1]@ == extra_args@[k - 1]@);
                }
            }
        }
    }
    args
}

/// The task vector after a task for a program is appended.
pub open spec fn spec_task_added(
    before: Seq<crate::task::Task>,
    after: Seq<crate::task::Task>,
    id: TaskId,
    task_name: &'static str,
    entry: usize,
    stack_base: usize,
) -> bool {
    after == before.push(crate::task::spec_new_task(id, task_name, entry as u64, 0, stack_base))
}

/// Spawns the task of a loaded program: a task with its own stack that
/// starts at the program's entry point, with the program image recorded
/// in its ledger entry. If no task can be spawned, the program's memory
/// is released.
pub fn spawn_program_task(
    kernel: &mut Kernel,
    task_name: &'static str,
    program: &LoadedProgram,
) -> (r: Option<TaskId>)
    requires
        old(kernel).wf(),
    ensures
        final(kernel).wf(),
        final(kernel).timer == old(kernel).timer,
        final(kernel).tcp == old(kernel).tcp,
        final(kernel).iface == old(kernel).iface,
        final(kernel).sched.current == old(kernel).sched.current,
        final(kernel).registry.initialized == old(kernel).registry.initialized,
        final(kernel).registry.table == old(kernel).registry.table,
        final(kernel).registry.exec_count == old(kernel).registry.exec_count,
        ({
            let k0 = old(kernel);
            let stack_slot = crate::program_alloc::spec_allocate_index(
                k0.programs.blocks(),
                STACK_SIZE,
            );
            if k0.sched.next_id == u32::MAX || stack_slot.is_none() {
                &&& r.is_none()
                &&& final(kernel).programs.blocks() == spec_free_extent(
                    k0.programs.blocks(),
                    (program.base_addr, program.size),
                )
                &&& final(kernel).registry.ledger() == k0.registry.ledger()
                &&& final(kernel).sched.tasks@ == k0.sched.tasks@
                &&& final(kernel).sched.next_id == k0.sched.next_id
            } else {
                let stack_base = k0.programs.blocks()[stack_slot.unwrap()].start;
                &&& r == Some(k0.sched.next_id)
                &&& final(kernel).sched.next_id == k0.sched.next_id + 1
                &&& spec_task_added(
                    k0.sched.tasks@,
                    final(kernel).sched.tasks@,
                    k0.sched.next_id,
                    task_name,
                    program.entry,
                    stack_base,
                )
                &&& final(kernel).programs.blocks() == spec_take(
                    k0.programs.blocks(),
                    stack_slot.unwrap(),
                    spec_page_round(STACK_SIZE),
                    PAGE_SIZE as int,
                    NO_OWNER,
                )
                &&& final(kernel).registry.ledger() == spec_register_program(
                    spec_register_stack(
                        k0.registry.ledger(),
                        k0.sched.next_id,
                        stack_base,
                        STACK_SIZE,
                    ),
                    k0.sched.next_id,
                    program.base_addr,
                    program.size,
                    program.name@,
                )
            }
        }),
{
    match crate::scheduler::spawn(
        &mut kernel.sched,
        &mut kernel.programs,
        &mut kernel.registry,
        task_name,
        program.entry as u64,
    ) {
        Some(id) => {
            register_task_program(
                &mut kernel.registry,
                id,
                program.base_addr,
                program.size,
                program.name.as_slice(),
            );
            Some(id)
        },
        None => {
            crate::executable::free_extent(&mut kernel.programs, program.base_addr, program.size);
            None
        },
    }
}

/// Allocates the argument block of a task as program heap of that task
/// and builds its contents: the result is the address of the block and
/// the bytes that belong there. `None` if there is no room for it.
pub fn allocate_args_for_task(
    kernel: &mut Kernel,
    task_id: TaskId,
    program_name: &[u8],
    extra_args: &Vec<Vec<u8>>,
) -> (r: Option<(usize, Vec<u8>)>)
    requires
        old(kernel).wf(),
    ensures
        final(kernel).wf(),
        final(kernel).timer == old(kernel).timer,
        final(kernel).tcp == old(kernel).tcp,
        final(kernel).iface == old(kernel).iface,
        final(kernel).sched == old(kernel).sched,
        final(kernel).registry.initialized == old(kernel).registry.initialized,
        final(kernel).registry.table == old(kernel).registry.table,
        final(kernel).registry.exec_count == old(kernel).registry.exec_count,
        ({
            let k0 = old(kernel);
            let args = spec_args(program_name@, args_view(extra_args@));
            let slot = spec_argv_slot(k0.programs.blocks(), args);
            match slot {
                None => {
                    &&& r.is_none()
                    &&& final(kernel).programs.blocks() == k0.programs.blocks()
                    &&& final(kernel).registry.ledger() == k0.registry.ledger()
                },
                Some(i) => {
                    &&& r.is_some()
                    &&& r.unwrap().0 == k0.programs.blocks()[i].start
                    &&& r.unwrap().1@ == spec_argv_block(r.unwrap().0 as int, args)
                    &&& final(kernel).programs.blocks() == spec_take(
                        k0.programs.blocks(),
                        i,
                        spec_page_round(spec_argv_size(args) as usize),
                        PAGE_SIZE as int,
                        NO_OWNER,
                    )
                    &&& final(kernel).registry.ledger() == spec_push_heap(
                        k0.registry.ledger(),
                        task_id,
                        r.unwrap().0,
                        spec_page_round(spec_argv_size(args) as usize) as usize,
                    )
                },
            }
        }),
{
    let args: Vec<Vec<u8>> = collect_args(program_name, extra_args);
    let size: usize = match argv_size(&args) {
        Some(n) => n,
        None => {
            return None;
        },
    };
    let argv_base: usize = match task_alloc(
        &mut kernel.registry,
        &mut kernel.programs,
        task_id,
        size,
    ) {
        Some(base) => base,
        None => {
            return None;
        },
    };
    proof {
        crate::allocator::lemma_align_up(size as int, PAGE_SIZE as int);
    }
    let argv: Vec<u8> = build_argv(argv_base, &args);
    Some((argv_base, argv))
}

/// The block that the argument block for `args` is allocated from, if
/// there is room for it.
pub open spec fn spec_argv_slot(blocks: Seq<Block>, args: Seq<Seq<u8>>) -> Option<int> {
    if spec_argv_size(args) > usize::MAX {
        None
    } else {
        crate::program_alloc::spec_allocate_index(blocks, spec_argv_size(args) as usize)
    }
}

/// Loads the program called `name` and spawns a task called `task_name`
/// for it, with `name` and `extra_args` as its arguments.
///
/// A load that fails leaves everything as it was. If no task can be
/// spawned, the program's memory is released again. If the argument
/// block cannot be allocated, the task stays spawned without one; what
/// it holds is released when it exits.
pub fn spawn_loaded(
    kernel: &mut Kernel,
    mem: &[u8],
    task_name: &'static str,
    name: &[u8],
    extra_args: &Vec<Vec<u8>>,
) -> (r: Result<SpawnedProgram, ExecError>)
    requires
        old(kernel).wf(),
        old(kernel).registry.table_ok(mem@),
    ensures
        final(kernel).wf(),
        final(kernel).registry.table_ok(mem@),
        final(kernel).timer == old(kernel).timer,
        final(kernel).tcp == old(kernel).tcp,
        final(kernel).iface == old(kernel).iface,
        final(kernel).sched.current == old(kernel).sched.current,
        spec_spawn_outcome(
            *old(kernel),
            *final(kernel),
            mem@,
            task_name,
            name@,
            args_view(extra_args@),
            r,
        ),
{
    let (program, image) = match load(&kernel.registry, &mut kernel.programs, mem, name) {
        Ok(loaded) => loaded,
        Err(e) => {
            return Err(e);
        },
    };
    let task_id: TaskId = match spawn_program_task(kernel, task_name, &program) {
        Some(id) => id,
        None => {
            return Err(ExecError::AllocationFailed);
        },
    };
    match allocate_args_for_task(kernel, task_id, name, extra_args) {
        Some((argv_base, argv)) => Ok(SpawnedProgram { task_id, program, image, argv_base, argv }),
        None => Err(ExecError::AllocationFailed),
    }
}

/// What loading and spawning the program called `name` does.
///
/// A load that fails gives the load's error and changes nothing. Else,
/// without a free task id or room for a stack, the program's memory is
/// released again and the error is `AllocationFailed`. Else the task is
/// appended, and its ledger entry lists its stack and its program image;
/// without room for the argument block that is all, and the error is
/// `AllocationFailed`. Else the argument block is allocated as program
/// heap of the task, and the result names the task, the placement, the
/// memory image and the argument block.
pub open spec fn spec_spawn_outcome(
    k0: Kernel,
    k1: Kernel,
    mem: Seq<u8>,
    task_name: &'static str,
    name: Seq<u8>,
    extra: Seq<Seq<u8>>,
    r: Result<SpawnedProgram, ExecError>,
) -> bool {
    let loaded = spec_load(
        k0.registry.initialized,
        k0.registry.table,
        k0.registry.exec_count as int,
        mem,
        name,
        k0.programs.blocks(),
    );
    match loaded.0 {
        Err(e) => {
            &&& r is Err
            &&& r->Err_0 == e
            &&& k1.programs.blocks() == k0.programs.blocks()
            &&& k1.registry.ledger() == k0.registry.ledger()
            &&& k1.sched.tasks@ == k0.sched.tasks@
            &&& k1.sched.next_id == k0.sched.next_id
        },
        Ok((base, size, entry, image)) => {
            let stack_slot = crate::program_alloc::spec_allocate_index(loaded.1, STACK_SIZE);
            if k0.sched.next_id == u32::MAX || stack_slot.is_none() {
                &&& r is Err
                &&& r->Err_0 == ExecError::AllocationFailed
                &&& k1.programs.blocks() == spec_free_extent(loaded.1, (base, size))
                &&& k1.registry.ledger() == k0.registry.ledger()
                &&& k1.sched.tasks@ == k0.sched.tasks@
                &&& k1.sched.next_id == k0.sched.next_id
            } else {
                let id = k0.sched.next_id;
                let stack_base = loaded.1[stack_slot.unwrap()].start;
                let stacked = spec_take(
                    loaded.1,
                    stack_slot.unwrap(),
                    spec_page_round(STACK_SIZE),
                    PAGE_SIZE as int,
                    NO_OWNER,
                );
                let listed = spec_register_program(
                    spec_register_stack(k0.registry.ledger(), id, stack_base, STACK_SIZE),
                    id,
                    base,
                    size,
                    name,
                );
                let args = spec_args(name, extra);
                &&& k1.sched.next_id == id + 1
                &&& spec_task_added(
                    k0.sched.tasks@,
                    k1.sched.tasks@,
                    id,
                    task_name,
                    entry,
                    stack_base,
                )
                &&& match spec_argv_slot(stacked, args) {
                    None => {
                        &&& r is Err
                        &&& r->Err_0 == ExecError::AllocationFailed
                        &&& k1.programs.blocks() == stacked
                        &&& k1.registry.ledger() == listed
                    },
                    Some(slot) => {
                        &&& r is Ok
                        &&& r->Ok_0.task_id == id
                        &&& r->Ok_0.program.base_addr == base
                        &&& r->Ok_0.program.size == size
                        &&& r->Ok_0.program.entry == entry
                        &&& r->Ok_0.program.name@ == name
                        &&& r->Ok_0.image@ == image
                        &&& r->Ok_0.argv_base == stacked[slot].start
                        &&& r->Ok_0.argv@ == spec_argv_block(stacked[slot].start as int, args)
                        &&& k1.programs.blocks() == spec_take(
                            stacked,
                            slot,
                            spec_page_round(spec_argv_size(args) as usize),
                            PAGE_SIZE as int,
                            NO_OWNER,
                        )
                        &&& k1.registry.ledger() == spec_push_heap(
                            listed,
                            id,
                            stacked[slot].start,
                            spec_page_round(spec_argv_size(args) as usize) as usize,
                        )
                    },
                }
            }
        },
    }
}

/// Loads the program called `name` and spawns a task of the same name
/// for it; the name is also the first argument.
pub fn spawn_program(
    kernel: &mut Kernel,
    mem: &[u8],
    name: &'static str,
    extra_args: &Vec<Vec<u8>>,
) -> (r: Result<SpawnedProgram, ExecError>)
    requires
        old(kernel).wf(),
        old(kernel).registry.table_ok(mem@),
    ensures
        final(kernel).wf(),
        final(kernel).registry.table_ok(mem@),
        final(kernel).timer == old(kernel).timer,
        final(kernel).tcp == old(kernel).tcp,
        final(kernel).iface == old(kernel).iface,
        final(kernel).sched.current == old(kernel).sched.current,
        spec_spawn_outcome(
            *old(kernel),
            *final(kernel),
            mem@,
            name,
            name.spec_bytes(),
            args_view(extra_args@),
            r,
        ),
{
    spawn_loaded(kernel, mem, name, name.as_bytes(), extra_args)
}

/// Loads the program called `name`, a name made at run time, and spawns
/// a task called "program" for it; the name is the first argument.
pub fn spawn_program_dynamic(kernel: &mut Kernel, mem: &[u8], name: &[u8], extra_args: &Vec<Vec<u8>>) -> (r:
    Result<SpawnedProgram, ExecError>)
    requires
        old(kernel).wf(),
        old(kernel).registry.table_ok(mem@),
    ensures
        final(kernel).wf(),
        final(kernel).registry.table_ok(mem@),
        final(kernel).timer == old(kernel).timer,
        final(kernel).tcp == old(kernel).tcp,
        final(kernel).iface == old(kernel).iface,
        final(kernel).sched.current == old(kernel).sched.current,
        spec_spawn_outcome(
            *old(kernel),
            *final(kernel),
            mem@,
            "program",
            name@,
            args_view(extra_args@),
            r,
        ),
{
    spawn_loaded(kernel, mem, "program", name, extra_args)
}

} // verus!
