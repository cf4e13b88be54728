//! The path of a received frame through the stack, and one round of the
//! network task.

use vstd::prelude::*;
use crate::net::arp::{expire_old_entries, spec_expire};
use crate::net::checksum::{spec_verify_checksum, MAX_CHECKSUM_LEN};
use crate::net::ethernet::{
    spec_is_broadcast, EthernetHeader, ETHERTYPE_ARP, ETHERTYPE_IPV4, HEADER_SIZE,
};
use crate::net::interface::{ip_of, lemma_ip_of, IfaceState, NetInterface};
use crate::net::ipv4::{
    spec_ipv4_valid, spec_is_fragmented, spec_payload, Ipv4Header, PROTO_ICMP, PROTO_TCP,
};
use crate::net::packet::{get_rx_packet, release_rx_buffer, PACKET_SIZE, RX_BUFFER_COUNT};
use crate::net::tcp::{process_timers, spec_process_timers, Tcb, TcpStack, MAX_CONNECTIONS};
use crate::bytes::{push_all, spec_be16_at};

verus! {

/// The connection table and interface after the IPv4 packet `data` is
/// processed at tick `now`.
///
/// A packet is dropped unless its header decodes, it is addressed to us,
/// its header checksum is correct and it is not a fragment. Its payload
/// then goes to ICMP or TCP by protocol number; other protocols are
/// ignored.
pub open spec fn spec_process_ipv4(conns: Seq<Tcb>, s: IfaceState, now: u64, data: Seq<u8>) -> (
    Seq<Tcb>,
    IfaceState,
) {
    let ihl = data[0] % 16;
    let src_ip = ip_of(data.subrange(12, 16));
    let dst_ip = ip_of(data.subrange(16, 20));
    let payload = spec_payload(ihl * 4, spec_be16_at(data, 2), data);
    if !spec_ipv4_valid(data) || data.subrange(16, 20) != s.config.ip@ || !spec_verify_checksum(
        data.subrange(0, ihl * 4),
    ) || spec_is_fragmented(crate::bytes::spec_u16_be(data, 6)) {
        (conns, s)
    } else if data[9] == PROTO_ICMP {
        (conns, crate::net::icmp::spec_process_packet(s, now, src_ip, payload))
    } else if data[9] == PROTO_TCP {
        crate::net::tcp::spec_process_packet(conns, s, now, src_ip, dst_ip, payload)
    } else {
        (conns, s)
    }
}

/// The connection table and interface after the frame `frame` is
/// processed at tick `now`: a frame addressed to us or to everybody hands
/// its payload to ARP or IPv4 by EtherType; everything else is ignored.
pub open spec fn spec_process_rx(conns: Seq<Tcb>, s: IfaceState, now: u64, frame: Seq<u8>) -> (
    Seq<Tcb>,
    IfaceState,
) {
    let dst = frame.subrange(0, 6);
    let payload = frame.subrange(HEADER_SIZE as int, frame.len() as int);
    if frame.len() < HEADER_SIZE || !(dst == s.mac@ || spec_is_broadcast(dst)) {
        (conns, s)
    } else if spec_be16_at(frame, 12) == ETHERTYPE_ARP {
        (conns, crate::net::arp::spec_process_packet(s, payload, now))
    } else if spec_be16_at(frame, 12) == ETHERTYPE_IPV4 {
        spec_process_ipv4(conns, s, now, payload)
    } else {
        (conns, s)
    }
}

/// The connection table and interface after at most `n` waiting frames
/// are taken from the receive ring and processed, oldest first.
pub open spec fn spec_drain(conns: Seq<Tcb>, s: IfaceState, now: u64, n: int) -> (
    Seq<Tcb>,
    IfaceState,
)
    decreases n,
{
    if n <= 0 || s.rx.len() == 0 {
        (conns, s)
    } else {
        let taken = IfaceState { rx: s.rx.drop_first(), ..s };
        let after = spec_process_rx(conns, taken, now, s.rx[0]);
        spec_drain(after.0, after.1, now, n - 1)
    }
}

/// The connection table and interface after one round of the network
/// task at tick `now`: waiting frames are processed, the TCP timers are
/// looked at, and stale address-resolution entries are dropped.
pub open spec fn spec_network_round(conns: Seq<Tcb>, s: IfaceState, now: u64) -> (
    Seq<Tcb>,
    IfaceState,
) {
    let drained = spec_drain(conns, s, now, RX_BUFFER_COUNT as int);
    let timed = spec_process_timers(drained.0, drained.1, now, MAX_CONNECTIONS as int);
    (timed.0, IfaceState { arp: spec_expire(timed.1.arp, now), ..timed.1 })
}

/// Processes a received IPv4 packet.
pub fn process_packet(stack: &mut TcpStack, iface: &mut NetInterface, now: u64, data: &[u8])
    requires
        old(stack).wf(),
        old(iface).wf(),
        data@.len() <= MAX_CHECKSUM_LEN,
    ensures
        final(stack).wf(),
        final(iface).wf(),
        final(stack).next_port == old(stack).next_port,
        (final(stack).conns(), final(iface)@) == spec_process_ipv4(
            old(stack).conns(),
            old(iface)@,
            now,
            data@,
        ),
{
    let header: Ipv4Header = match Ipv4Header::parse(data) {
        Some(h) => h,
        None => {
            return ;
        },
    };
    proof {
        lemma_ip_of(header.src_ip);
        lemma_ip_of(header.dst_ip);
    }
    if !header.is_for_us(&iface.config.ip) {
        return ;
    }
    if !header.verify_checksum(data) {
        return ;
    }
    if header.is_fragmented() {
        return ;
    }
    let payload: &[u8] = header.payload(data);
    if header.protocol == PROTO_ICMP {
        crate::net::icmp::process_packet(iface, now, &header, payload);
    } else if header.protocol == PROTO_TCP {
        crate::net::tcp::process_packet(stack, iface, now, &header, payload);
    }
}

/// Processes a received frame.
pub fn process_rx_packet(stack: &mut TcpStack, iface: &mut NetInterface, now: u64, frame: &[u8])
    requires
        old(stack).wf(),
        old(iface).wf(),
        frame@.len() <= MAX_CHECKSUM_LEN,
    ensures
        final(stack).wf(),
        final(iface).wf(),
        final(stack).next_port == old(stack).next_port,
        (final(stack).conns(), final(iface)@) == spec_process_rx(
            old(stack).conns(),
            old(iface)@,
            now,
            frame@,
        ),
{
    let header: EthernetHeader = match EthernetHeader::parse(frame) {
        Some(h) => h,
        None => {
            return ;
        },
    };
    if !header.is_for_us(&iface.mac) {
        return ;
    }
    let payload: &[u8] = EthernetHeader::payload(frame);
    proof {
        if frame@.len() == HEADER_SIZE {
            assert(payload@ =~= frame@.subrange(HEADER_SIZE as int, frame@.len() as int));
        }
    }
    if header.ethertype == ETHERTYPE_ARP {
        crate::net::arp::process_packet(iface, payload, now);
    } else if header.ethertype == ETHERTYPE_IPV4 {
        process_packet(stack, iface, now, payload);
    }
}

/// One round of the network task at tick `now`. The caller sleeps a tick
/// between rounds.
pub fn network_task(stack: &mut TcpStack, iface: &mut NetInterface, now: u64)
    requires
        old(stack).wf(),
        old(iface).wf(),
    ensures
        final(stack).wf(),
        final(iface).wf(),
        final(stack).next_port == old(stack).next_port,
        (final(stack).conns(), final(iface)@) == spec_network_round(
            old(stack).conns(),
            old(iface)@,
            now,
        ),
{
    let mut budget: usize = RX_BUFFER_COUNT;
    while budget > 0
        invariant
            stack.wf(),
            iface.wf(),
            stack.next_port == old(stack).next_port,
            budget <= RX_BUFFER_COUNT,
            spec_drain(old(stack).conns(), old(iface)@, now, RX_BUFFER_COUNT as int) == spec_drain(
                stack.conns(),
                iface@,
                now,
                budget as int,
            ),
        decreases budget,
    {
        let mut frame: Vec<u8> = Vec::new();
        match get_rx_packet(&iface.pool) {
            None => {
                budget = 0;
            },
            Some((data, _)) => {
                push_all(&mut frame, data);
                proof {
                    assert(frame@ =~= iface@.rx[0]);
                    assert(iface.pool.rx.buffers@[crate::net::packet::ring_slot(
                        iface.pool.rx.tail as int,
                        0,
                        iface.pool.rx.cap(),
                    )].len <= PACKET_SIZE);
                }
                let ghost before = iface@;
                release_rx_buffer(&mut iface.pool);
                assert(iface@ == IfaceState { rx: before.rx.drop_first(), ..before });
                process_rx_packet(stack, iface, now, frame.as_slice());
                budget -= 1;
            },
        }
    }
    process_timers(stack, iface, now);
    let ghost timed = iface@;
    expire_old_entries(&mut iface.arp, now);
    assert(iface@ == IfaceState { arp: spec_expire(timed.arp, now), ..timed });
}

} // verus!
