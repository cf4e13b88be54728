//! The terminal interface of the interactive interpreter: non-blocking
//! input, byte by byte.

use vstd::prelude::*;
use vstd::string::StringSliceAdditionalSpecFns;

verus! {

/// Result of polling a terminal for one input byte.
#[derive(Debug, Clone, Copy, PartialEq, Eq, Structural)]
pub enum ReadStatus {
    /// A byte is available.
    Byte(u8),
    /// No data is available yet.
    NoData,
    /// The underlying stream is closed.
    Eof,
}

/// The bytes that a serial console transmits for `text`: every line feed
/// goes out as carriage return and line feed.
pub open spec fn spec_crlf(text: Seq<u8>, n: int) -> Seq<u8>
    decreases n,
{
    if n <= 0 {
        Seq::empty()
    } else if text[n - 1] == 0x0A {
        spec_crlf(text, n - 1) + seq![0x0Du8, 0x0Au8]
    } else {
        spec_crlf(text, n - 1).push(text[n - 1])
    }
}

/// The bytes to put on the serial line for `text`.
pub fn serial_bytes(text: &str) -> (out: Vec<u8>)
    ensures
        out@ == spec_crlf(text.spec_bytes(), text.spec_bytes().len() as int),
{
    let bytes: &[u8] = text.as_bytes();
    let mut out: Vec<u8> = Vec::new();
    let mut i: usize = 0;
    while i < bytes.len()
        invariant
            bytes@ == text.spec_bytes(),
            i <= bytes@.len(),
            out@ == spec_crlf(bytes@, i as int),
        decreases bytes@.len() - i,
    {
        let b: u8 = bytes[i];
        if b == 0x0A {
            let ghost before = out@;
            out.push(0x0D);
            out.push(0x0A);
            proof {
                assert(out@ =~= before + seq![0x0Du8, 0x0Au8]);
            }
        } else {
            out.push(b);
        }
        i += 1;
    }
    out
}

} // verus!
