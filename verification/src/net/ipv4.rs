//! IPv4 headers and sending.

use vstd::prelude::*;
use vstd::slice::slice_subrange;
use crate::bytes::{be16_at, push_all, push_be16, spec_be16_at, spec_be16_bytes};
use crate::net::arp::{resolve, spec_resolve};
use crate::net::checksum::{internet_checksum, spec_internet_checksum, spec_verify_checksum};
use crate::net::ethernet::{push_ip, send_frame, spec_send_frame, ETHERTYPE_IPV4};
use crate::net::interface::{ip_eq, IfaceState, NetInterface};

verus! {

/// Bytes of a header without options.
pub const HEADER_SIZE: usize = 20;

/// Longest packet that is sent.
pub const MAX_PACKET_SIZE: usize = 1500;

/// Protocol number of ICMP.
pub const PROTO_ICMP: u8 = 1;

/// Protocol number of TCP.
pub const PROTO_TCP: u8 = 6;

/// Protocol number of UDP.
pub const PROTO_UDP: u8 = 17;

/// A decoded header.
#[derive(Debug, Clone, Copy)]
pub struct Ipv4Header {
    pub version: u8,
    /// Header length in 32-bit words.
    pub ihl: u8,
    pub tos: u8,
    /// Length of header and payload together.
    pub total_length: u16,
    pub identification: u16,
    /// Three flag bits and the 13-bit fragment offset.
    pub flags_fragment: u16,
    pub ttl: u8,
    pub protocol: u8,
    pub checksum: u16,
    pub src_ip: [u8; 4],
    pub dst_ip: [u8; 4],
}

/// Whether `data` starts with a version-4 header that lies inside it.
pub open spec fn spec_ipv4_valid(data: Seq<u8>) -> bool {
    &&& data.len() >= HEADER_SIZE
    &&& data[0] / 16 == 4
    &&& data[0] % 16 >= 5
    &&& data.len() >= (data[0] % 16) * 4
}

/// Whether the flags and offset say that a packet is a fragment: the
/// more-fragments flag is set or the offset is not zero.
pub open spec fn spec_is_fragmented(flags_fragment: u16) -> bool {
    (flags_fragment & 0x2000) != 0 || (flags_fragment & 0x1FFF) != 0
}

/// The payload that a header announces in `data`: the bytes between the
/// header and the announced total length, or all bytes behind the header
/// if the total length does not make sense for `data`.
pub open spec fn spec_payload(header_len: int, total: int, data: Seq<u8>) -> Seq<u8> {
    if data.len() >= total && total > header_len {
        data.subrange(header_len, total)
    } else if data.len() > header_len {
        data.subrange(header_len, data.len() as int)
    } else {
        Seq::empty()
    }
}

/// The header of a packet with the checksum field still zero.
pub open spec fn spec_header_unsummed(
    protocol: u8,
    src_ip: Seq<u8>,
    dst_ip: Seq<u8>,
    payload_len: int,
    ident: u16,
) -> Seq<u8> {
    seq![0x45u8, 0u8] + spec_be16_bytes(((HEADER_SIZE + payload_len) % 0x1_0000) as u16)
        + spec_be16_bytes(ident) + spec_be16_bytes(0x4000) + seq![64u8, protocol, 0u8, 0u8] + src_ip
        + dst_ip
}

/// The 20 bytes of the header that is sent in front of `payload_len`
/// payload bytes: version 4, no options, don't-fragment, time to live 64,
/// and the header checksum.
pub open spec fn spec_header_bytes(
    protocol: u8,
    src_ip: Seq<u8>,
    dst_ip: Seq<u8>,
    payload_len: int,
    ident: u16,
) -> Seq<u8> {
    let raw = spec_header_unsummed(protocol, src_ip, dst_ip, payload_len, ident);
    raw.subrange(0, 10) + spec_be16_bytes(spec_internet_checksum(raw) as u16) + raw.subrange(
        12,
        20,
    )
}

/// An identification advanced by one, wrapping.
pub open spec fn spec_next_id(id: u16) -> u16 {
    if id == u16::MAX {
        0
    } else {
        (id + 1) as u16
    }
}

/// The interface after `payload` is sent to `dst_ip` at tick `now`, and
/// whether it was sent. The hardware address of the next hop is resolved
/// first; without it nothing but the resolution request goes out. Else
/// an identification is consumed, and the packet goes out in a frame
/// unless it is longer than the maximum packet size.
pub open spec fn spec_send_packet(
    s: IfaceState,
    now: u64,
    dst_ip: [u8; 4],
    protocol: u8,
    payload: Seq<u8>,
) -> (IfaceState, bool) {
    let resolved = spec_resolve(s, dst_ip, now);
    match resolved.1 {
        None => (resolved.0, false),
        Some(mac) => {
            let ident = spec_next_id(resolved.0.ip_id);
            let numbered = IfaceState { ip_id: ident, ..resolved.0 };
            if HEADER_SIZE + payload.len() > MAX_PACKET_SIZE {
                (numbered, false)
            } else {
                spec_send_frame(
                    numbered,
                    mac@,
                    ETHERTYPE_IPV4,
                    spec_header_bytes(protocol, s.config.ip@, dst_ip@, payload.len() as int, ident)
                        + payload,
                )
            }
        },
    }
}

impl Ipv4Header {
    /// Decodes a header; `None` unless `data` holds a whole version-4
    /// header.
    pub fn parse(data: &[u8]) -> (r: Option<Ipv4Header>)
        ensures
            r.is_some() == spec_ipv4_valid(data@),
            r.is_some() ==> {
                let h = r.unwrap();
                &&& h.version == 4
                &&& h.ihl == data@[0] % 16
                &&& h.tos == data@[1]
                &&& h.total_length == spec_be16_at(data@, 2)
                &&& h.identification == spec_be16_at(data@, 4)
                &&& h.flags_fragment == spec_be16_at(data@, 6)
                &&& h.ttl == data@[8]
                &&& h.protocol == data@[9]
                &&& h.checksum == spec_be16_at(data@, 10)
                &&& h.src_ip@ == data@.subrange(12, 16)
                &&& h.dst_ip@ == data@.subrange(16, 20)
            },
    {
        if data.len() < HEADER_SIZE {
            return None;
        }
        let version: u8 = data[0] / 16;
        let ihl: u8 = data[0] % 16;
        if version != 4 {
            return None;
        }
        if ihl < 5 {
            return None;
        }
        if data.len() < (ihl as usize) * 4 {
            return None;
        }
        let src_ip: [u8; 4] = [data[12], data[13], data[14], data[15]];
        let dst_ip: [u8; 4] = [data[16], data[17], data[18], data[19]];
        proof {
            assert(src_ip@ =~= data@.subrange(12, 16));
            assert(dst_ip@ =~= data@.subrange(16, 20));
        }
        Some(
            Ipv4Header {
                version,
                ihl,
                tos: data[1],
                total_length: be16_at(data, 2),
                identification: be16_at(data, 4),
                flags_fragment: be16_at(data, 6),
                ttl: data[8],
                protocol: data[9],
                checksum: be16_at(data, 10),
                src_ip,
                dst_ip,
            },
        )
    }

    /// Header length in bytes.
    pub fn header_length(&self) -> (n: usize)
        ensures
            n == self.ihl * 4,
    {
        (self.ihl as usize) * 4
    }

    /// The payload of the packet in `data`.
    pub fn payload<'a>(&self, data: &'a [u8]) -> (r: &'a [u8])
        ensures
            r@ == spec_payload(self.ihl * 4, self.total_length as int, data@),
    {
        let header_len: usize = self.header_length();
        let total: usize = self.total_length as usize;
        let n: usize = data.len();
        if n >= total && total > header_len {
            slice_subrange(data, header_len, total)
        } else if n > header_len {
            slice_subrange(data, header_len, n)
        } else {
            let r = slice_subrange(data, 0, 0);
            proof {
                assert(r@ =~= Seq::<u8>::empty());
            }
            r
        }
    }

    /// Whether the packet is addressed to `our_ip`.
    pub fn is_for_us(&self, our_ip: &[u8; 4]) -> (r: bool)
        ensures
            r == (self.dst_ip@ == our_ip@),
    {
        ip_eq(&self.dst_ip, our_ip)
    }

    /// Whether the header in `data` carries a correct checksum.
    pub fn verify_checksum(&self, data: &[u8]) -> (ok: bool)
        ensures
            ok == (data@.len() >= self.ihl * 4 && spec_verify_checksum(
                data@.subrange(0, self.ihl * 4),
            )),
    {
        let header_len: usize = self.header_length();
        if data.len() < header_len {
            return false;
        }
        crate::net::checksum::verify_checksum(slice_subrange(data, 0, header_len))
    }

    /// Whether the packet is a fragment.
    pub fn is_fragmented(&self) -> (r: bool)
        ensures
            r == spec_is_fragmented(self.flags_fragment),
    {
        let mf: bool = (self.flags_fragment & 0x2000) != 0;
        let offset: u16 = self.flags_fragment & 0x1FFF;
        mf || offset != 0
    }
}

/// The bytes of the header sent in front of `payload_len` payload bytes.
pub fn header_bytes(protocol: u8, src_ip: &[u8; 4], dst_ip: &[u8; 4], payload_len: usize, ident: u16) -> (out:
    Vec<u8>)
    ensures
        out@ == spec_header_bytes(protocol, src_ip@, dst_ip@, payload_len as int, ident),
        out@.len() == HEADER_SIZE,
{
    let total_length: u16 = ((payload_len % 0x1_0000 + HEADER_SIZE) % 0x1_0000) as u16;
    proof {
        vstd::arithmetic::div_mod::lemma_add_mod_noop(
            payload_len as int,
            HEADER_SIZE as int,
            0x1_0000,
        );
        vstd::arithmetic::div_mod::lemma_small_mod(HEADER_SIZE as nat, 0x1_0000);
    }
    let mut raw: Vec<u8> = Vec::new();
    raw.push(0x45u8);
    raw.push(0u8);
    proof {
        assert(raw@ =~= seq![0x45u8, 0u8]);
    }
    push_be16(&mut raw, total_length);
    push_be16(&mut raw, ident);
    push_be16(&mut raw, 0x4000);
    let ghost before = raw@;
    raw.push(64u8);
    raw.push(protocol);
    raw.push(0u8);
    raw.push(0u8);
    proof {
        assert(raw@ =~= before + seq![64u8, protocol, 0u8, 0u8]);
    }
    push_ip(&mut raw, src_ip);
    push_ip(&mut raw, dst_ip);
    let cksum: u16 = internet_checksum(raw.as_slice());
    let mut out: Vec<u8> = Vec::new();
    push_all(&mut out, slice_subrange(raw.as_slice(), 0, 10));
    push_be16(&mut out, cksum);
    push_all(&mut out, slice_subrange(raw.as_slice(), 12, 20));
    proof {
        assert(out@ =~= raw@.subrange(0, 10) + spec_be16_bytes(cksum) + raw@.subrange(12, 20));
    }
    out
}

/// Writes the header for `payload_len` payload bytes at the start of
/// `buffer` and returns its size; a buffer too short for a header is left
/// alone and the result is 0.
pub fn build_header(
    buffer: &mut Vec<u8>,
    protocol: u8,
    src_ip: &[u8; 4],
    dst_ip: &[u8; 4],
    payload_len: usize,
    ident: u16,
) -> (n: usize)
    ensures
        old(buffer)@.len() < HEADER_SIZE ==> n == 0 && final(buffer)@ == old(buffer)@,
        old(buffer)@.len() >= HEADER_SIZE ==> n == HEADER_SIZE && final(buffer)@
            == spec_header_bytes(
                protocol,
                src_ip@,
                dst_ip@,
                payload_len as int,
                ident) + old(buffer)@.subrange(HEADER_SIZE as int,
                old(buffer)@.len() as int,
            ),
{
    if buffer.len() < HEADER_SIZE {
        return 0;
    }
    let header: Vec<u8> = header_bytes(protocol, src_ip, dst_ip, payload_len, ident);
    let mut i: usize = 0;
    while i < HEADER_SIZE
        invariant
            i <= HEADER_SIZE,
            header@.len() == HEADER_SIZE,
            buffer@.len() == old(buffer)@.len(),
            buffer@.len() >= HEADER_SIZE,
            forall|k: int| 0 <= k < i ==> buffer@[k] == header@[k],
            forall|k: int| i <= k < buffer@.len() ==> buffer@[k] == old(buffer)@[k],
        decreases HEADER_SIZE - i,
    {
        buffer.set(i, header[i]);
        i += 1;
    }
    proof {
        assert(buffer@ =~= header@ + old(buffer)@.subrange(
            HEADER_SIZE as int,
            old(buffer)@.len() as int,
        ));
    }
    HEADER_SIZE
}

/// The identification for the next packet: one more than the last,
/// wrapping.
pub fn identification(iface: &mut NetInterface) -> (id: u16)
    ensures
        id == spec_next_id(old(iface).ip_id),
        final(iface).ip_id == id,
        final(iface).config == old(iface).config,
        final(iface).mac == old(iface).mac,
        final(iface).arp == old(iface).arp,
        final(iface).pool == old(iface).pool,
{
    iface.ip_id = if iface.ip_id == u16::MAX {
        0
    } else {
        iface.ip_id + 1
    };
    iface.ip_id
}

/// Sends `payload` to `dst_ip` at tick `now`. The result is false when
/// the next hop's hardware address is not yet known (a resolution request
/// has then been sent and the caller tries again later), when the packet
/// is too long, or when the frame cannot go out.
pub fn send_packet(iface: &mut NetInterface, now: u64, dst_ip: &[u8; 4], protocol: u8, payload: &[u8]) -> (sent:
    bool)
    requires
        old(iface).wf(),
    ensures
        final(iface).wf(),
        (final(iface)@, sent) == spec_send_packet(old(iface)@, now, *dst_ip, protocol, payload@),
{
    let dst_mac: [u8; 6] = match resolve(iface, dst_ip, now) {
        Some(mac) => mac,
        None => {
            return false;
        },
    };
    let ghost resolved = iface@;
    let ident: u16 = identification(iface);
    assert(iface@ == IfaceState { ip_id: ident, ..resolved });
    if payload.len() > MAX_PACKET_SIZE - HEADER_SIZE {
        return false;
    }
    let mut packet: Vec<u8> = header_bytes(
        protocol,
        &iface.config.ip,
        dst_ip,
        payload.len(),
        ident,
    );
    push_all(&mut packet, payload);
    send_frame(iface, &dst_mac, ETHERTYPE_IPV4, packet.as_slice())
}

/// A header as sent decodes to what it was built from and carries a
/// correct checksum: in front of any payload it is a valid version-4
/// header of five words that announces the payload's length, names the
/// protocol and both addresses, and is not a fragment.
pub proof fn lemma_header_round_trip(
    protocol: u8,
    src_ip: Seq<u8>,
    dst_ip: Seq<u8>,
    payload: Seq<u8>,
    ident: u16,
)
    requires
        src_ip.len() == 4,
        dst_ip.len() == 4,
        HEADER_SIZE + payload.len() <= MAX_PACKET_SIZE,
    ensures
        ({
            let header = spec_header_bytes(protocol, src_ip, dst_ip, payload.len() as int, ident);
            let packet = header + payload;
            &&& header.len() == HEADER_SIZE
            &&& spec_verify_checksum(header)
            &&& spec_ipv4_valid(packet)
            &&& packet[0] % 16 == 5
            &&& spec_be16_at(packet, 2) == HEADER_SIZE + payload.len()
            &&& spec_be16_at(packet, 4) == ident
            &&& !spec_is_fragmented(crate::bytes::spec_u16_be(packet, 6))
            &&& packet[9] == protocol
            &&& packet.subrange(12, 16) == src_ip
            &&& packet.subrange(16, 20) == dst_ip
            &&& packet.subrange(0, 20) == header
            &&& spec_payload(20, HEADER_SIZE + payload.len(), packet) == payload
        }),
{
    let total: u16 = (HEADER_SIZE + payload.len()) as u16;
    let raw = spec_header_unsummed(protocol, src_ip, dst_ip, payload.len() as int, ident);
    let a = seq![0x45u8, 0u8] + spec_be16_bytes(total);
    let b = a + spec_be16_bytes(ident) + spec_be16_bytes(0x4000);
    let c = b + seq![64u8, protocol, 0u8, 0u8];
    assert(a.len() == 4 && b.len() == 8 && c.len() == 12);
    assert(raw == c + src_ip + dst_ip);
    assert(raw.len() == 20);
    assert(raw[10] == c[10] && raw[11] == c[11]);
    assert(c[10] == 0u8 && c[11] == 0u8);
    let cksum = spec_internet_checksum(raw) as u16;
    let header = spec_header_bytes(protocol, src_ip, dst_ip, payload.len() as int, ident);
    assert(header =~= crate::net::checksum::spec_patch(raw, 10, cksum));
    crate::net::checksum::lemma_filled_checksum_verifies(raw, 10);
    let packet = header + payload;
    assert forall|i: int| 0 <= i < 10 implies packet[i] == raw[i] by {
        assert(header[i] == raw.subrange(0, 10)[i]);
    }
    assert forall|i: int| 12 <= i < 20 implies packet[i] == raw[i] by {
        assert(header[i] == raw.subrange(12, 20)[i - 12]);
    }
    assert(raw[0] == a[0] && raw[2] == a[2] && raw[3] == a[3]);
    assert(raw[4] == b[4] && raw[5] == b[5] && raw[6] == b[6] && raw[7] == b[7]);
    assert(raw[9] == c[9]);
    assert(b[6] == 0x40u8 && b[7] == 0u8);
    assert(crate::bytes::spec_u16_be(packet, 6) == 0x4000u16);
    assert(0x4000u16 & 0x2000 == 0 && 0x4000u16 & 0x1FFF == 0) by (bit_vector);
    assert(packet.subrange(12, 16) =~= src_ip) by {
        assert forall|i: int| 0 <= i < 4 implies packet[12 + i] == src_ip[i] by {
            assert(raw[12 + i] == (c + src_ip)[12 + i]);
        }
    }
    assert(packet.subrange(16, 20) =~= dst_ip) by {
        assert forall|i: int| 0 <= i < 4 implies packet[16 + i] == dst_ip[i] by {
            assert(raw[16 + i] == dst_ip[i]);
        }
    }
    assert(packet.subrange(0, 20) =~= header);
    assert(packet.subrange(20, packet.len() as int) =~= payload);
}

} // verus!
