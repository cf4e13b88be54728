//! Verified core of a small cooperative kernel: time base, region
//! allocators, scheduler decisions, program loading and the network stack,
//! all expressed as state machines over plain values.

pub mod allocator;
pub mod api;
pub mod bytes;
pub mod elf;
pub mod executable;
pub mod meminfo;
pub mod net;
pub mod program_alloc;
pub mod region;
pub mod scheduler;
pub mod task;
pub mod telnet;
pub mod terminal;
pub mod timer;
