//! Ethernet II framing.

use vstd::prelude::*;
use vstd::slice::slice_subrange;
use crate::bytes::{be16_at, push_all, push_be16, spec_be16_at, spec_be16_bytes};
use crate::net::interface::{mac_eq, tx_full, IfaceState, NetInterface};
use crate::net::packet::{spec_bump, tx_buffer_ready, get_tx_buffer};

verus! {

/// Bytes of the frame header.
pub const HEADER_SIZE: usize = 14;

/// Shortest frame on the wire, checksum excluded; shorter frames are
/// padded with zeros.
pub const MIN_FRAME_SIZE: usize = 60;

/// Longest frame on the wire, checksum excluded.
pub const MAX_FRAME_SIZE: usize = 1514;

/// EtherType of IPv4.
pub const ETHERTYPE_IPV4: u16 = 0x0800;

/// EtherType of ARP.
pub const ETHERTYPE_ARP: u16 = 0x0806;

/// The broadcast hardware address.
pub const BROADCAST_MAC: [u8; 6] = [0xFF, 0xFF, 0xFF, 0xFF, 0xFF, 0xFF];

/// A decoded frame header.
#[derive(Debug, Clone, Copy)]
pub struct EthernetHeader {
    /// Destination hardware address.
    pub dst_mac: [u8; 6],
    /// Source hardware address.
    pub src_mac: [u8; 6],
    /// Protocol of the payload.
    pub ethertype: u16,
}

/// Whether a hardware address is the broadcast address.
pub open spec fn spec_is_broadcast(mac: Seq<u8>) -> bool {
    mac == seq![0xFFu8, 0xFFu8, 0xFFu8, 0xFFu8, 0xFFu8, 0xFFu8]
}

/// The 14 header bytes of a frame.
pub open spec fn spec_header_bytes(dst_mac: Seq<u8>, src_mac: Seq<u8>, ethertype: u16) -> Seq<u8> {
    dst_mac + src_mac + spec_be16_bytes(ethertype)
}

/// `n` zero bytes.
pub open spec fn zeros(n: int) -> Seq<u8> {
    Seq::new(n as nat, |i: int| 0u8)
}

/// A complete frame: header, payload, and zero padding up to the minimum
/// frame size.
pub open spec fn spec_frame(dst_mac: Seq<u8>, src_mac: Seq<u8>, ethertype: u16, payload: Seq<u8>) -> Seq<
    u8,
> {
    let unpadded = spec_header_bytes(dst_mac, src_mac, ethertype) + payload;
    if unpadded.len() < MIN_FRAME_SIZE {
        unpadded + zeros(MIN_FRAME_SIZE - unpadded.len())
    } else {
        unpadded
    }
}

/// The interface after a frame to `dst_mac` is handed to it, and whether
/// the frame will go out. A frame longer than the maximum, or one that
/// finds the transmit ring full, changes nothing and does not go out.
/// Any other frame is queued for the driver.
pub open spec fn spec_send_frame(
    s: IfaceState,
    dst_mac: Seq<u8>,
    ethertype: u16,
    payload: Seq<u8>,
) -> (IfaceState, bool) {
    if HEADER_SIZE + payload.len() > MAX_FRAME_SIZE || tx_full(s) {
        (s, false)
    } else {
        let frame = spec_frame(dst_mac, s.mac@, ethertype, payload);
        (IfaceState { tx: s.tx.push(frame), tx_count: spec_bump(s.tx_count), ..s }, true)
    }
}

impl EthernetHeader {
    /// Decodes the header of a frame; `None` if the frame is shorter than
    /// a header.
    pub fn parse(data: &[u8]) -> (r: Option<EthernetHeader>)
        ensures
            data@.len() < HEADER_SIZE ==> r.is_none(),
            data@.len() >= HEADER_SIZE ==> r.is_some() && r.unwrap().dst_mac@ == data@.subrange(
                0,
                6,
            ) && r.unwrap().src_mac@ == data@.subrange(6, 12) && r.unwrap().ethertype
                == spec_be16_at(data@, 12),
    {
        if data.len() < HEADER_SIZE {
            return None;
        }
        let dst_mac: [u8; 6] = [data[0], data[1], data[2], data[3], data[4], data[5]];
        let src_mac: [u8; 6] = [data[6], data[7], data[8], data[9], data[10], data[11]];
        let ethertype: u16 = be16_at(data, 12);
        proof {
            assert(dst_mac@ =~= data@.subrange(0, 6));
            assert(src_mac@ =~= data@.subrange(6, 12));
        }
        Some(EthernetHeader { dst_mac, src_mac, ethertype })
    }

    /// The bytes of a frame behind its header.
    pub fn payload(data: &[u8]) -> (r: &[u8])
        ensures
            r@ == (if data@.len() > HEADER_SIZE {
                data@.subrange(HEADER_SIZE as int, data@.len() as int)
            } else {
                Seq::empty()
            }),
    {
        let n: usize = data.len();
        if n > HEADER_SIZE {
            slice_subrange(data, HEADER_SIZE, n)
        } else {
            let r = slice_subrange(data, 0, 0);
            proof {
                assert(r@ =~= Seq::<u8>::empty());
            }
            r
        }
    }

    /// Whether the frame is addressed to `our_mac` or to everybody.
    pub fn is_for_us(&self, our_mac: &[u8; 6]) -> (r: bool)
        ensures
            r == (self.dst_mac@ == our_mac@ || spec_is_broadcast(self.dst_mac@)),
    {
        mac_eq(&self.dst_mac, our_mac) || self.is_broadcast()
    }

    /// Whether the frame is addressed to everybody.
    pub fn is_broadcast(&self) -> (r: bool)
        ensures
            r == spec_is_broadcast(self.dst_mac@),
    {
        let m: &[u8; 6] = &self.dst_mac;
        let r: bool = m[0] == 0xFF && m[1] == 0xFF && m[2] == 0xFF && m[3] == 0xFF && m[4] == 0xFF
            && m[5] == 0xFF;
        proof {
            if r {
                assert(m@ =~= seq![0xFFu8, 0xFFu8, 0xFFu8, 0xFFu8, 0xFFu8, 0xFFu8]);
            } else {
                let b = seq![0xFFu8, 0xFFu8, 0xFFu8, 0xFFu8, 0xFFu8, 0xFFu8];
                assert(b[0] == 0xFF && b[1] == 0xFF && b[2] == 0xFF && b[3] == 0xFF && b[4] == 0xFF
                    && b[5] == 0xFF);
            }
        }
        r
    }
}

/// Appends the six bytes of a hardware address.
pub fn push_mac(out: &mut Vec<u8>, mac: &[u8; 6])
    ensures
        final(out)@ == old(out)@ + mac@,
{
    out.push(mac[0]);
    out.push(mac[1]);
    out.push(mac[2]);
    out.push(mac[3]);
    out.push(mac[4]);
    out.push(mac[5]);
    proof {
        assert(out@ =~= old(out)@ + mac@);
    }
}

/// Appends the four bytes of an IPv4 address.
pub fn push_ip(out: &mut Vec<u8>, ip: &[u8; 4])
    ensures
        final(out)@ == old(out)@ + ip@,
{
    out.push(ip[0]);
    out.push(ip[1]);
    out.push(ip[2]);
    out.push(ip[3]);
    proof {
        assert(out@ =~= old(out)@ + ip@);
    }
}

/// Writes a frame header at the start of `buffer` and returns its size;
/// a buffer too short for a header is left alone and the result is 0.
pub fn build_frame(buffer: &mut Vec<u8>, dst_mac: &[u8; 6], src_mac: &[u8; 6], ethertype: u16) -> (n:
    usize)
    ensures
        old(buffer)@.len() < HEADER_SIZE ==> n == 0 && final(buffer)@ == old(buffer)@,
        old(buffer)@.len() >= HEADER_SIZE ==> n == HEADER_SIZE && final(buffer)@
            == spec_header_bytes(dst_mac@, src_mac@, ethertype) + old(buffer)@.subrange(
            HEADER_SIZE as int,
            old(buffer)@.len() as int,
        ),
{
    if buffer.len() < HEADER_SIZE {
        return 0;
    }
    let mut header: Vec<u8> = Vec::new();
    push_mac(&mut header, dst_mac);
    push_mac(&mut header, src_mac);
    push_be16(&mut header, ethertype);
    let mut i: usize = 0;
    while i < HEADER_SIZE
        invariant
            i <= HEADER_SIZE,
            header@ == spec_header_bytes(dst_mac@, src_mac@, ethertype),
            header@.len() == HEADER_SIZE,
            buffer@.len() == old(buffer)@.len(),
            buffer@.len() >= HEADER_SIZE,
            forall|k: int| 0 <= k < i ==> buffer@[k] == header@[k],
            forall|k: int| i <= k < buffer@.len() ==> buffer@[k] == old(buffer)@[k],
        decreases HEADER_SIZE - i,
    {
        buffer.set(i, header[i]);
        i += 1;
    }
    proof {
        assert(buffer@ =~= header@ + old(buffer)@.subrange(
            HEADER_SIZE as int,
            old(buffer)@.len() as int,
        ));
    }
    HEADER_SIZE
}

/// Sends `payload` in a frame to `dst_mac`: the frame is built, padded to
/// the minimum size and queued in the transmit ring. The result is false
/// if the frame is too long or the ring is full; the caller tries again
/// later.
pub fn send_frame(iface: &mut NetInterface, dst_mac: &[u8; 6], ethertype: u16, payload: &[u8]) -> (sent:
    bool)
    requires
        old(iface).wf(),
    ensures
        final(iface).wf(),
        (final(iface)@, sent) == spec_send_frame(old(iface)@, dst_mac@, ethertype, payload@),
{
    if payload.len() > MAX_FRAME_SIZE - HEADER_SIZE {
        return false;
    }
    match get_tx_buffer(&iface.pool) {
        None => false,
        Some(_) => {
            let mut frame: Vec<u8> = Vec::new();
            push_mac(&mut frame, dst_mac);
            push_mac(&mut frame, &iface.mac);
            push_be16(&mut frame, ethertype);
            push_all(&mut frame, payload);
            let ghost unpadded = frame@;
            while frame.len() < MIN_FRAME_SIZE
                invariant
                    unpadded.len() <= frame@.len(),
                    frame@.len() <= MIN_FRAME_SIZE || frame@ == unpadded,
                    frame@ == unpadded + zeros(frame@.len() - unpadded.len()),
                decreases MIN_FRAME_SIZE - frame@.len(),
            {
                frame.push(0u8);
                proof {
                    assert(frame@ =~= unpadded + zeros(frame@.len() - unpadded.len()));
                }
            }
            proof {
                assert(unpadded + zeros(0) =~= unpadded);
                assert(frame@ == spec_frame(dst_mac@, iface.mac@, ethertype, payload@));
            }
            tx_buffer_ready(&mut iface.pool, frame.as_slice());
            true
        },
    }
}

} // verus!
