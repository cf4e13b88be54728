//! Network stack: packet buffers, framing, address resolution and TCP.

pub mod arp;
pub mod checksum;
pub mod dispatch;
pub mod ethernet;
pub mod icmp;
pub mod interface;
pub mod ipv4;
pub mod ne2000;
pub mod packet;
pub mod tcp;
