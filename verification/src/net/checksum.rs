//! The Internet checksum: the 16-bit one's complement of the one's
//! complement sum of a buffer's big-endian 16-bit words.

use vstd::prelude::*;
use vstd::arithmetic::div_mod::lemma_mod_multiples_vanish;
use crate::bytes::{be16_at, spec_be16, spec_be16_at, spec_be16_bytes};

verus! {

/// Longest buffer whose word sum is guaranteed to fit the 32-bit accumulator.
pub const MAX_CHECKSUM_LEN: usize = 65536;

/// Sum of the big-endian 16-bit words in `data[0..n)`, for even `n`.
pub open spec fn sum_words(data: Seq<u8>, n: int) -> int
    decreases n,
{
    if n < 2 {
        0
    } else {
        sum_words(data, n - 2) + spec_be16_at(data, n - 2)
    }
}

/// Plain sum of all 16-bit words of `data`; an odd trailing byte counts as
/// the high byte of a word whose low byte is zero.
pub open spec fn spec_accumulate(data: Seq<u8>) -> int {
    let even = data.len() - data.len() % 2;
    sum_words(data, even) + if data.len() % 2 == 1 {
        data[data.len() - 1] * 256
    } else {
        0
    }
}

/// One's complement reduction of a sum to 16 bits: zero stays zero, every
/// other sum becomes its representative in `1..=65535` modulo 65535.
pub open spec fn spec_fold(sum: int) -> int {
    if sum == 0 {
        0
    } else {
        (sum - 1) % 65535 + 1
    }
}

/// The checksum that belongs to an accumulated sum.
pub open spec fn spec_checksum_of_sum(sum: int) -> int {
    65535 - spec_fold(sum)
}

/// The checksum of a buffer.
pub open spec fn spec_internet_checksum(data: Seq<u8>) -> int {
    spec_checksum_of_sum(spec_accumulate(data))
}

/// A buffer that carries its own checksum sums to all ones.
pub open spec fn spec_verify_checksum(data: Seq<u8>) -> bool {
    spec_checksum_of_sum(spec_accumulate(data)) == 0
}

/// Sum of the pseudo-header words and of the segment that follows them.
pub open spec fn spec_pseudo_sum(src_ip: Seq<u8>, dst_ip: Seq<u8>, protocol: u8, data: Seq<u8>) -> int {
    spec_be16(src_ip[0], src_ip[1]) + spec_be16(src_ip[2], src_ip[3]) + spec_be16(
        dst_ip[0],
        dst_ip[1],
    ) + spec_be16(dst_ip[2], dst_ip[3]) + protocol + data.len() + spec_accumulate(data)
}

/// The checksum of a transport segment under its pseudo-header.
pub open spec fn spec_tcp_udp_checksum(
    src_ip: Seq<u8>,
    dst_ip: Seq<u8>,
    protocol: u8,
    data: Seq<u8>,
) -> int {
    spec_checksum_of_sum(spec_pseudo_sum(src_ip, dst_ip, protocol, data))
}

proof fn lemma_sum_words_bound(data: Seq<u8>, n: int)
    requires
        0 <= n <= data.len(),
        n % 2 == 0,
    ensures
        0 <= sum_words(data, n) <= n * 32768,
    decreases n,
{
    if n >= 2 {
        lemma_sum_words_bound(data, n - 2);
    }
}

/// The accumulated sum of a buffer no longer than `MAX_CHECKSUM_LEN` fits
/// 31 bits.
pub proof fn lemma_accumulate_bound(data: Seq<u8>)
    ensures
        0 <= spec_accumulate(data) <= data.len() * 32768 + 65535,
{
    let even = data.len() - data.len() % 2;
    lemma_sum_words_bound(data, even);
}

proof fn lemma_fold_step(hi: int, lo: int)
    requires
        hi > 0,
        0 <= lo,
    ensures
        spec_fold(hi * 65536 + lo) == spec_fold(hi + lo),
{
    assert(hi * 65536 + lo - 1 == 65535 * hi + (hi + lo - 1)) by (nonlinear_arith);
    lemma_mod_multiples_vanish(hi, hi + lo - 1, 65535);
}

/// Plain word sum of a buffer, not yet folded or complemented.
pub fn checksum_accumulate(data: &[u8]) -> (sum: u32)
    requires
        data@.len() <= MAX_CHECKSUM_LEN,
    ensures
        sum == spec_accumulate(data@),
{
    let n: usize = data.len();
    let mut sum: u32 = 0;
    let mut i: usize = 0;
    while i + 1 < n
        invariant
            n == data@.len(),
            n <= MAX_CHECKSUM_LEN,
            i <= n,
            i % 2 == 0,
            sum == sum_words(data@, i as int),
            sum <= i * 32768,
        decreases n - i,
    {
        let word: u16 = be16_at(data, i);
        sum = sum + word as u32;
        i = i + 2;
    }
    if i < n {
        sum = sum + (data[i] as u32) * 256;
    }
    sum
}

/// Adds one 16-bit word to an accumulated sum.
pub fn checksum_add_u16(sum: u32, value: u16) -> (r: u32)
    requires
        sum + value <= u32::MAX,
    ensures
        r == sum + value,
{
    sum + value as u32
}

/// Adds a 32-bit value to an accumulated sum as its two 16-bit halves.
pub fn checksum_add_u32(sum: u32, value: u32) -> (r: u32)
    requires
        sum + value / 65536 + value % 65536 <= u32::MAX,
    ensures
        r == sum + value / 65536 + value % 65536,
{
    sum + value / 65536 + value % 65536
}

/// Folds an accumulated sum to 16 bits with end-around carry and
/// complements it.
pub fn fold_checksum(sum: u32) -> (c: u16)
    ensures
        c == spec_checksum_of_sum(sum as int),
{
    let mut s: u32 = sum;
    while s >= 65536
        invariant
            spec_fold(s as int) == spec_fold(sum as int),
        decreases s,
    {
        let lo: u32 = s % 65536;
        let hi: u32 = s / 65536;
        proof {
            lemma_fold_step(hi as int, lo as int);
        }
        s = lo + hi;
    }
    65535 - (s as u16)
}

/// The checksum of a buffer.
pub fn internet_checksum(data: &[u8]) -> (c: u16)
    requires
        data@.len() <= MAX_CHECKSUM_LEN,
    ensures
        c == spec_internet_checksum(data@),
{
    let sum: u32 = checksum_accumulate(data);
    fold_checksum(sum)
}

/// Whether a buffer that includes its checksum field is intact.
pub fn verify_checksum(data: &[u8]) -> (ok: bool)
    requires
        data@.len() <= MAX_CHECKSUM_LEN,
    ensures
        ok == spec_verify_checksum(data@),
{
    let sum: u32 = checksum_accumulate(data);
    let folded: u16 = fold_checksum(sum);
    folded == 0
}

/// The checksum of a TCP or UDP segment, computed over the pseudo-header
/// (source, destination, zero, protocol, segment length) and the segment.
pub fn tcp_udp_checksum(src_ip: &[u8; 4], dst_ip: &[u8; 4], protocol: u8, data: &[u8]) -> (c: u16)
    requires
        data@.len() <= MAX_CHECKSUM_LEN,
    ensures
        c == spec_tcp_udp_checksum(src_ip@, dst_ip@, protocol, data@),
{
    proof {
        lemma_accumulate_bound(data@);
    }
    let mut sum: u32 = 0;
    sum = sum + (src_ip[0] as u32) * 256 + src_ip[1] as u32;
    sum = sum + (src_ip[2] as u32) * 256 + src_ip[3] as u32;
    sum = sum + (dst_ip[0] as u32) * 256 + dst_ip[1] as u32;
    sum = sum + (dst_ip[2] as u32) * 256 + dst_ip[3] as u32;
    sum = sum + protocol as u32;
    sum = sum + data.len() as u32;
    sum = sum + checksum_accumulate(data);
    fold_checksum(sum)
}

proof fn lemma_sum_words_prefix(a: Seq<u8>, b: Seq<u8>, n: int)
    requires
        0 <= n <= a.len(),
        n % 2 == 0,
    ensures
        sum_words(a + b, n) == sum_words(a, n),
    decreases n,
{
    if n >= 2 {
        lemma_sum_words_prefix(a, b, n - 2);
    }
}

/// A buffer of even length followed by the big-endian bytes of its own
/// checksum verifies.
pub proof fn lemma_checksum_appended_verifies(data: Seq<u8>, c: u16)
    requires
        data.len() % 2 == 0,
        c == spec_internet_checksum(data),
    ensures
        spec_verify_checksum(data + spec_be16_bytes(c)),
{
    let whole = data + spec_be16_bytes(c);
    let n = data.len() as int;
    lemma_sum_words_prefix(data, spec_be16_bytes(c), n);
    lemma_accumulate_bound(data);
    assert(spec_be16_at(whole, n) == c);
    assert(sum_words(whole, n + 2) == sum_words(whole, n) + spec_be16_at(whole, n));
    assert(spec_accumulate(whole) == spec_accumulate(data) + c);
    lemma_sum_with_checksum(spec_accumulate(data));
}

/// `data` with the two bytes at `at` replaced by the big-endian bytes of
/// `c`.
pub open spec fn spec_patch(data: Seq<u8>, at: int, c: u16) -> Seq<u8> {
    data.subrange(0, at) + spec_be16_bytes(c) + data.subrange(at + 2, data.len() as int)
}

proof fn lemma_sum_words_patch(data: Seq<u8>, at: int, c: u16, n: int)
    requires
        0 <= at,
        at % 2 == 0,
        at + 2 <= data.len(),
        data[at] == 0,
        data[at + 1] == 0,
        0 <= n <= data.len(),
        n % 2 == 0,
    ensures
        sum_words(spec_patch(data, at, c), n) == sum_words(data, n) + (if n >= at + 2 {
            c as int
        } else {
            0
        }),
    decreases n,
{
    let patched = spec_patch(data, at, c);
    if n >= 2 {
        lemma_sum_words_patch(data, at, c, n - 2);
        if n - 2 == at {
            assert(patched[at] == spec_be16_bytes(c)[0]);
            assert(patched[at + 1] == spec_be16_bytes(c)[1]);
        } else {
            assert(patched[n - 2] == data[n - 2]);
            assert(patched[n - 1] == data[n - 1]);
        }
    }
}

/// Filling a zeroed 16-bit field at an even offset adds the value filled
/// in to the word sum.
pub proof fn lemma_accumulate_patch(data: Seq<u8>, at: int, c: u16)
    requires
        0 <= at,
        at % 2 == 0,
        at + 2 <= data.len(),
        data[at] == 0,
        data[at + 1] == 0,
    ensures
        spec_accumulate(spec_patch(data, at, c)) == spec_accumulate(data) + c,
        spec_patch(data, at, c).len() == data.len(),
{
    let patched = spec_patch(data, at, c);
    let even = data.len() - data.len() % 2;
    lemma_sum_words_patch(data, at, c, even);
    if data.len() % 2 == 1 {
        assert(patched[data.len() - 1] == data[data.len() - 1]);
    }
}

/// A sum with its own checksum added folds to all ones, so its checksum
/// is zero.
pub proof fn lemma_sum_with_checksum(s: int)
    requires
        0 <= s,
    ensures
        spec_checksum_of_sum(s + spec_checksum_of_sum(s)) == 0,
{
    if s != 0 {
        // s - 1 = 65535 q + r and the checksum is 65534 - r
        let q = (s - 1) / 65535;
        vstd::arithmetic::div_mod::lemma_fundamental_div_mod(s - 1, 65535);
        lemma_mod_multiples_vanish(q, 65534, 65535);
    }
}

/// A buffer whose zeroed checksum field, at an even offset, is filled
/// with the checksum of the buffer verifies.
pub proof fn lemma_filled_checksum_verifies(data: Seq<u8>, at: int)
    requires
        0 <= at,
        at % 2 == 0,
        at + 2 <= data.len(),
        data[at] == 0,
        data[at + 1] == 0,
    ensures
        spec_verify_checksum(spec_patch(data, at, spec_internet_checksum(data) as u16)),
{
    lemma_accumulate_bound(data);
    lemma_accumulate_patch(data, at, spec_internet_checksum(data) as u16);
    lemma_sum_with_checksum(spec_accumulate(data));
}

/// A segment whose zeroed checksum field, at an even offset, is filled
/// with its checksum under the pseudo-header has checksum zero under
/// that pseudo-header.
pub proof fn lemma_filled_segment_checksum(
    src_ip: Seq<u8>,
    dst_ip: Seq<u8>,
    protocol: u8,
    data: Seq<u8>,
    at: int,
)
    requires
        0 <= at,
        at % 2 == 0,
        at + 2 <= data.len(),
        data[at] == 0,
        data[at + 1] == 0,
    ensures
        spec_tcp_udp_checksum(
            src_ip,
            dst_ip,
            protocol,
            spec_patch(data, at, spec_tcp_udp_checksum(src_ip, dst_ip, protocol, data) as u16),
        ) == 0,
{
    lemma_accumulate_bound(data);
    lemma_accumulate_patch(
        data,
        at,
        spec_tcp_udp_checksum(src_ip, dst_ip, protocol, data) as u16,
    );
    lemma_sum_with_checksum(spec_pseudo_sum(src_ip, dst_ip, protocol, data));
}

/// A checksum as the 16-bit word that is written into a packet.
pub open spec fn spec_sum_word(sum: int) -> u16 {
    sum as u16
}

/// Filling a 16-bit field leaves every other byte as it was.
pub proof fn lemma_patch_keeps(data: Seq<u8>, at: int, c: u16)
    requires
        0 <= at,
        at + 2 <= data.len(),
    ensures
        spec_patch(data, at, c).len() == data.len(),
        forall|i: int|
            0 <= i < data.len() && i != at && i != at + 1 ==> (#[trigger] spec_patch(
                data,
                at,
                c,
            )[i]) == data[i],
        spec_patch(data, at, c).subrange(at, at + 2) == spec_be16_bytes(c),
{
    let patched = spec_patch(data, at, c);
    assert forall|i: int| 0 <= i < data.len() && i != at && i != at + 1 implies (
    #[trigger] patched[i]) == data[i] by {
        if i < at {
            assert(patched[i] == data.subrange(0, at)[i]);
        } else {
            assert(patched[i] == data.subrange(at + 2, data.len() as int)[i - at - 2]);
        }
    }
    assert(patched.subrange(at, at + 2) =~= spec_be16_bytes(c));
}

} // verus!
