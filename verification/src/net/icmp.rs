//! ICMP echo: answering pings.

use vstd::prelude::*;
use vstd::slice::slice_subrange;
use crate::bytes::{be16_at, push_all, push_be16, spec_be16_bytes, spec_u16_be};
use crate::net::checksum::{
    internet_checksum, spec_internet_checksum, spec_sum_word, spec_verify_checksum,
    MAX_CHECKSUM_LEN,
};
use crate::net::interface::{IfaceState, NetInterface};
use crate::net::ipv4::{send_packet, spec_send_packet, Ipv4Header, PROTO_ICMP};

verus! {

/// Bytes of the ICMP header.
pub const HEADER_SIZE: usize = 8;

/// Type of an echo reply.
pub const TYPE_ECHO_REPLY: u8 = 0;

/// Type of an echo request.
pub const TYPE_ECHO_REQUEST: u8 = 8;

/// Longest ICMP message that is built.
pub const MAX_MESSAGE_SIZE: usize = 1500;

/// A decoded ICMP header.
#[derive(Debug, Clone, Copy, PartialEq, Eq, Structural)]
pub struct IcmpHeader {
    pub icmp_type: u8,
    pub code: u8,
    pub checksum: u16,
    pub identifier: u16,
    pub sequence: u16,
}

/// The header decoded from the first eight bytes of `data`.
pub open spec fn spec_header(data: Seq<u8>) -> IcmpHeader {
    IcmpHeader {
        icmp_type: data[0],
        code: data[1],
        checksum: spec_u16_be(data, 2),
        identifier: spec_u16_be(data, 4),
        sequence: spec_u16_be(data, 6),
    }
}

/// The bytes of `data` behind the ICMP header.
pub open spec fn spec_payload(data: Seq<u8>) -> Seq<u8> {
    if data.len() > HEADER_SIZE {
        data.subrange(HEADER_SIZE as int, data.len() as int)
    } else {
        Seq::empty()
    }
}

/// An echo reply with the checksum field still zero.
pub open spec fn spec_echo_reply_unsummed(identifier: u16, sequence: u16, payload: Seq<u8>) -> Seq<u8> {
    seq![TYPE_ECHO_REPLY, 0u8, 0u8, 0u8] + spec_be16_bytes(identifier) + spec_be16_bytes(sequence)
        + payload
}

/// The bytes of an echo reply: type 0, code 0, the checksum over the whole
/// message, and the identifier, sequence number and payload of the
/// request.
pub open spec fn spec_echo_reply(identifier: u16, sequence: u16, payload: Seq<u8>) -> Seq<u8> {
    let raw = spec_echo_reply_unsummed(identifier, sequence, payload);
    raw.subrange(0, 2) + spec_be16_bytes(spec_sum_word(spec_internet_checksum(raw))) + raw.subrange(
        4,
        raw.len() as int,
    )
}

/// The interface after an echo reply is sent to `dst_ip`; a payload too
/// long for one message sends nothing.
pub open spec fn spec_send_echo_reply(
    s: IfaceState,
    now: u64,
    dst_ip: [u8; 4],
    identifier: u16,
    sequence: u16,
    payload: Seq<u8>,
) -> IfaceState {
    if HEADER_SIZE + payload.len() > MAX_MESSAGE_SIZE {
        s
    } else {
        spec_send_packet(
            s,
            now,
            dst_ip,
            PROTO_ICMP,
            spec_echo_reply(identifier, sequence, payload),
        ).0
    }
}

/// The interface after the ICMP message `data` from `src_ip` is
/// processed: a well-formed echo request with a correct checksum is
/// answered; everything else is ignored.
pub open spec fn spec_process_packet(s: IfaceState, now: u64, src_ip: [u8; 4], data: Seq<u8>) -> IfaceState {
    if data.len() < HEADER_SIZE || !spec_verify_checksum(data) || data[0] != TYPE_ECHO_REQUEST {
        s
    } else {
        spec_send_echo_reply(
            s,
            now,
            src_ip,
            spec_header(data).identifier,
            spec_header(data).sequence,
            spec_payload(data),
        )
    }
}

impl IcmpHeader {
    /// Decodes a header; `None` if `data` is shorter than one.
    pub fn parse(data: &[u8]) -> (r: Option<IcmpHeader>)
        ensures
            r == (if data@.len() >= HEADER_SIZE {
                Some(spec_header(data@))
            } else {
                None
            }),
    {
        if data.len() < HEADER_SIZE {
            return None;
        }
        Some(
            IcmpHeader {
                icmp_type: data[0],
                code: data[1],
                checksum: be16_at(data, 2),
                identifier: be16_at(data, 4),
                sequence: be16_at(data, 6),
            },
        )
    }

    /// The bytes of a message behind its header.
    pub fn payload(data: &[u8]) -> (r: &[u8])
        ensures
            r@ == spec_payload(data@),
    {
        let n: usize = data.len();
        if n > HEADER_SIZE {
            slice_subrange(data, HEADER_SIZE, n)
        } else {
            let r = slice_subrange(data, 0, 0);
            proof {
                assert(r@ =~= Seq::<u8>::empty());
            }
            r
        }
    }

    /// Whether a message carries a correct checksum.
    pub fn verify_checksum(data: &[u8]) -> (ok: bool)
        requires
            data@.len() <= MAX_CHECKSUM_LEN,
        ensures
            ok == spec_verify_checksum(data@),
    {
        crate::net::checksum::verify_checksum(data)
    }
}

/// The bytes of an echo reply.
pub fn echo_reply_bytes(identifier: u16, sequence: u16, payload: &[u8]) -> (out: Vec<u8>)
    requires
        HEADER_SIZE + payload@.len() <= MAX_MESSAGE_SIZE,
    ensures
        out@ == spec_echo_reply(identifier, sequence, payload@),
        out@.len() == HEADER_SIZE + payload@.len(),
{
    let mut raw: Vec<u8> = Vec::new();
    raw.push(TYPE_ECHO_REPLY);
    raw.push(0u8);
    raw.push(0u8);
    raw.push(0u8);
    proof {
        assert(raw@ =~= seq![TYPE_ECHO_REPLY, 0u8, 0u8, 0u8]);
    }
    push_be16(&mut raw, identifier);
    push_be16(&mut raw, sequence);
    push_all(&mut raw, payload);
    let n: usize = raw.len();
    let cksum: u16 = internet_checksum(raw.as_slice());
    let mut out: Vec<u8> = Vec::new();
    push_all(&mut out, slice_subrange(raw.as_slice(), 0, 2));
    push_be16(&mut out, cksum);
    push_all(&mut out, slice_subrange(raw.as_slice(), 4, n));
    out
}

/// Writes an echo reply at the start of `buffer` and returns its length;
/// a buffer too short for it, or a payload too long for one message,
/// leaves the buffer alone and the result is 0.
pub fn build_echo_reply(buffer: &mut Vec<u8>, identifier: u16, sequence: u16, payload: &[u8]) -> (n:
    usize)
    ensures
        old(buffer)@.len() < HEADER_SIZE + payload@.len() || HEADER_SIZE + payload@.len()
            > MAX_MESSAGE_SIZE ==> n == 0 && final(buffer)@ == old(buffer)@,
        old(buffer)@.len() >= HEADER_SIZE + payload@.len() && HEADER_SIZE + payload@.len()
            <= MAX_MESSAGE_SIZE ==> n == HEADER_SIZE + payload@.len() && final(buffer)@
            == spec_echo_reply(identifier, sequence, payload@) + old(buffer)@.subrange(
            n as int,
            old(buffer)@.len() as int,
        ),
{
    if payload.len() > MAX_MESSAGE_SIZE - HEADER_SIZE
        || buffer.len() < HEADER_SIZE + payload.len() {
        return 0;
    }
    let message: Vec<u8> = echo_reply_bytes(identifier, sequence, payload);
    let total: usize = message.len();
    let mut i: usize = 0;
    while i < total
        invariant
            i <= total,
            message@.len() == total,
            buffer@.len() == old(buffer)@.len(),
            buffer@.len() >= total,
            forall|k: int| 0 <= k < i ==> buffer@[k] == message@[k],
            forall|k: int| i <= k < buffer@.len() ==> buffer@[k] == old(buffer)@[k],
        decreases total - i,
    {
        buffer.set(i, message[i]);
        i += 1;
    }
    proof {
        assert(buffer@ =~= message@ + old(buffer)@.subrange(
            total as int,
            old(buffer)@.len() as int,
        ));
    }
    total
}

/// Sends an echo reply to `dst_ip`.
pub fn send_echo_reply(
    iface: &mut NetInterface,
    now: u64,
    dst_ip: &[u8; 4],
    identifier: u16,
    sequence: u16,
    payload: &[u8],
)
    requires
        old(iface).wf(),
    ensures
        final(iface).wf(),
        final(iface)@ == spec_send_echo_reply(
            old(iface)@,
            now,
            *dst_ip,
            identifier,
            sequence,
            payload@,
        ),
{
    if payload.len() > MAX_MESSAGE_SIZE - HEADER_SIZE {
        return ;
    }
    let message: Vec<u8> = echo_reply_bytes(identifier, sequence, payload);
    send_packet(iface, now, dst_ip, PROTO_ICMP, message.as_slice());
}

/// Processes the ICMP message `data` that came in the packet with header
/// `ip_header`.
pub fn process_packet(iface: &mut NetInterface, now: u64, ip_header: &Ipv4Header, data: &[u8])
    requires
        old(iface).wf(),
        data@.len() <= MAX_CHECKSUM_LEN,
    ensures
        final(iface).wf(),
        final(iface)@ == spec_process_packet(old(iface)@, now, ip_header.src_ip, data@),
{
    let icmp: IcmpHeader = match IcmpHeader::parse(data) {
        Some(h) => h,
        None => {
            return ;
        },
    };
    if !IcmpHeader::verify_checksum(data) {
        return ;
    }
    if icmp.icmp_type == TYPE_ECHO_REQUEST {
        send_echo_reply(
            iface,
            now,
            &ip_header.src_ip,
            icmp.identifier,
            icmp.sequence,
            IcmpHeader::payload(data),
        );
    }
}

/// An echo reply as built carries a correct checksum and decodes to what
/// it was built from.
pub proof fn lemma_echo_reply_round_trip(identifier: u16, sequence: u16, payload: Seq<u8>)
    ensures
        ({
            let reply = spec_echo_reply(identifier, sequence, payload);
            &&& reply.len() == HEADER_SIZE + payload.len()
            &&& spec_verify_checksum(reply)
            &&& reply[0] == TYPE_ECHO_REPLY
            &&& reply[1] == 0
            &&& spec_header(reply).identifier == identifier
            &&& spec_header(reply).sequence == sequence
            &&& spec_payload(reply) == payload
        }),
{
    let raw = spec_echo_reply_unsummed(identifier, sequence, payload);
    let a = seq![TYPE_ECHO_REPLY, 0u8, 0u8, 0u8] + spec_be16_bytes(identifier) + spec_be16_bytes(
        sequence,
    );
    assert(a.len() == 8);
    assert(raw == a + payload);
    assert forall|i: int| 0 <= i < 8 implies raw[i] == a[i] by {}
    assert(a[2] == 0u8 && a[3] == 0u8);
    let reply = spec_echo_reply(identifier, sequence, payload);
    let sum = spec_internet_checksum(raw);
    assert(reply =~= crate::net::checksum::spec_patch(raw, 2, spec_sum_word(sum)));
    crate::net::checksum::lemma_filled_checksum_verifies(raw, 2);
    assert forall|i: int| 4 <= i < reply.len() implies reply[i] == raw[i] by {
        assert(reply[i] == raw.subrange(4, raw.len() as int)[i - 4]);
    }
    assert(reply[0] == raw.subrange(0, 2)[0] && reply[1] == raw.subrange(0, 2)[1]);
    assert(a[4] == spec_be16_bytes(identifier)[0] && a[5] == spec_be16_bytes(identifier)[1]);
    assert(a[6] == spec_be16_bytes(sequence)[0] && a[7] == spec_be16_bytes(sequence)[1]);
    assert(spec_payload(reply) =~= payload);
}

} // verus!
