//! Telnet front-end: the network virtual terminal between a TCP socket
//! and the interactive interpreter.
//!
//! Input is decoded byte by byte: option negotiation is answered and
//! filtered out, a carriage return ends a line and swallows the line feed
//! that follows it, and a doubled IAC stands for the byte 255. Output is
//! encoded the other way round and queued, to be flushed into the socket
//! as its send buffer takes it.

use vstd::prelude::*;
use vstd::string::StringSliceAdditionalSpecFns;
use crate::net::interface::NetInterface;
use crate::net::tcp::{
    min2, spec_taken_tcb, spec_valid_sock, unused_index, Tcb, TcpStack, TcpState,
    MAX_CONNECTIONS, RX_BUFFER_SIZE, TX_BUFFER_SIZE,
};
use crate::terminal::ReadStatus;

verus! {

/// Port of the telnet server.
pub const TELNET_PORT: u16 = 23;

pub const IAC: u8 = 255;

pub const DONT: u8 = 254;

pub const DO: u8 = 253;

pub const WONT: u8 = 252;

pub const WILL: u8 = 251;

pub const SB: u8 = 250;

pub const SE: u8 = 240;

pub const OPT_ECHO: u8 = 1;

pub const OPT_SUPPRESS_GO_AHEAD: u8 = 3;

pub const OPT_LINEMODE: u8 = 34;

/// Bytes read from the socket at a time.
pub const RX_CHUNK: usize = 128;

/// Where the input decoder stands.
#[derive(Debug, Clone, Copy, PartialEq, Eq, Structural)]
pub enum RxState {
    /// In plain data.
    Data,
    /// Behind an IAC.
    Iac,
    /// Behind IAC and the given negotiation command; the option follows.
    IacCommand(u8),
    /// Inside a subnegotiation.
    Subnegotiation,
    /// Behind an IAC inside a subnegotiation.
    SubnegotiationIac,
}

/// What one flush of queued output achieved.
#[derive(Debug, Clone, Copy, PartialEq, Eq, Structural)]
pub enum FlushStatus {
    /// Nothing is left to send.
    Done,
    /// The socket took what it could; the rest waits.
    WouldBlock,
    /// The socket is closed.
    Closed,
}

/// A telnet session on a TCP socket.
pub struct TelnetTerminal {
    /// The socket.
    pub sock: usize,
    /// Bytes read from the socket; always `RX_CHUNK` bytes of storage.
    pub rx_buf: Vec<u8>,
    /// Next byte of `rx_buf` to decode.
    pub rx_pos: usize,
    /// Bytes of `rx_buf` that were read from the socket.
    pub rx_len: usize,
    /// State of the input decoder.
    pub rx_state: RxState,
    /// Whether a line feed that comes next belongs to the carriage return
    /// just decoded.
    pub swallow_lf: bool,
    /// Whether the session has ended.
    pub closed: bool,
    /// Encoded output and negotiation replies not yet taken by the socket.
    pub pending: Vec<u8>,
}

/// The answer to the negotiation command `cmd` for option `opt`. We agree
/// to echo and to suppress go-ahead in both directions, and refuse
/// everything else.
pub open spec fn spec_reply(cmd: u8, opt: u8) -> Seq<u8> {
    if cmd == DO && (opt == OPT_ECHO || opt == OPT_SUPPRESS_GO_AHEAD) {
        seq![IAC, WILL, opt]
    } else if cmd == WILL && opt == OPT_SUPPRESS_GO_AHEAD {
        seq![IAC, DO, opt]
    } else if cmd == DO || cmd == DONT {
        seq![IAC, WONT, opt]
    } else if cmd == WILL || cmd == WONT {
        seq![IAC, DONT, opt]
    } else {
        Seq::empty()
    }
}

/// The effect of decoding one byte.
pub struct Step {
    /// The decoder state afterwards.
    pub state: RxState,
    /// Whether a line feed that comes next is to be swallowed.
    pub swallow: bool,
    /// The byte handed to the reader, if any.
    pub emit: Option<u8>,
    /// The bytes to send back.
    pub reply: Seq<u8>,
}

/// Whether a byte is one of the four negotiation commands.
pub open spec fn is_negotiation(b: u8) -> bool {
    b == DO || b == DONT || b == WILL || b == WONT
}

/// Decoding of one byte `b` in state `state`.
pub open spec fn spec_step(state: RxState, swallow: bool, b: u8) -> Step {
    if swallow && b == 0x0A {
        Step { state, swallow: false, emit: None, reply: Seq::empty() }
    } else {
        match state {
            RxState::Data => if b == IAC {
                Step { state: RxState::Iac, swallow: false, emit: None, reply: Seq::empty() }
            } else if b == 0x0D {
                Step { state: RxState::Data, swallow: true, emit: Some(0x0Au8), reply: Seq::empty() }
            } else {
                Step { state: RxState::Data, swallow: false, emit: Some(b), reply: Seq::empty() }
            },
            RxState::Iac => if b == IAC {
                Step { state: RxState::Data, swallow: false, emit: Some(IAC), reply: Seq::empty() }
            } else if is_negotiation(b) {
                Step {
                    state: RxState::IacCommand(b),
                    swallow: false,
                    emit: None,
                    reply: Seq::empty(),
                }
            } else if b == SB {
                Step {
                    state: RxState::Subnegotiation,
                    swallow: false,
                    emit: None,
                    reply: Seq::empty(),
                }
            } else {
                Step { state: RxState::Data, swallow: false, emit: None, reply: Seq::empty() }
            },
            RxState::IacCommand(cmd) => Step {
                state: RxState::Data,
                swallow: false,
                emit: None,
                reply: spec_reply(cmd, b),
            },
            RxState::Subnegotiation => Step {
                state: if b == IAC {
                    RxState::SubnegotiationIac
                } else {
                    RxState::Subnegotiation
                },
                swallow: false,
                emit: None,
                reply: Seq::empty(),
            },
            RxState::SubnegotiationIac => Step {
                state: if b == SE {
                    RxState::Data
                } else if b != IAC {
                    RxState::Subnegotiation
                } else {
                    RxState::SubnegotiationIac
                },
                swallow: false,
                emit: None,
                reply: Seq::empty(),
            },
        }
    }
}

/// The effect of decoding a run of bytes.
pub struct Decoded {
    /// The decoder state afterwards.
    pub state: RxState,
    /// Whether a line feed that comes next is to be swallowed.
    pub swallow: bool,
    /// The bytes handed to the reader, in order.
    pub emitted: Seq<u8>,
    /// The bytes to send back, in order.
    pub replies: Seq<u8>,
}

/// Decoding of the first `n` bytes of `input`, starting in `state`.
pub open spec fn spec_decode(state: RxState, swallow: bool, input: Seq<u8>, n: int) -> Decoded
    decreases n,
{
    if n <= 0 {
        Decoded { state, swallow, emitted: Seq::empty(), replies: Seq::empty() }
    } else {
        let before = spec_decode(state, swallow, input, n - 1);
        let step = spec_step(before.state, before.swallow, input[n - 1]);
        Decoded {
            state: step.state,
            swallow: step.swallow,
            emitted: match step.emit {
                Some(b) => before.emitted.push(b),
                None => before.emitted,
            },
            replies: before.replies + step.reply,
        }
    }
}

/// How many bytes of `input` from index `from` on a poll consumes: up to
/// and including the first byte that hands something to the reader, or
/// all of them.
pub open spec fn spec_scan(state: RxState, swallow: bool, input: Seq<u8>, from: int) -> int
    decreases input.len() - from,
{
    if from >= input.len() {
        input.len() as int
    } else {
        let step = spec_step(state, swallow, input[from]);
        if step.emit.is_some() {
            from + 1
        } else {
            spec_scan(step.state, step.swallow, input, from + 1)
        }
    }
}

/// The bytes to send for the first `n` bytes of `text`: a line feed goes
/// out as carriage return and line feed, a carriage return as carriage
/// return and NUL, and the byte 255 doubled.
pub open spec fn spec_encode(text: Seq<u8>, n: int) -> Seq<u8>
    decreases n,
{
    if n <= 0 {
        Seq::empty()
    } else if text[n - 1] == 0x0A {
        spec_encode(text, n - 1) + seq![0x0Du8, 0x0Au8]
    } else if text[n - 1] == 0x0D {
        spec_encode(text, n - 1) + seq![0x0Du8, 0u8]
    } else if text[n - 1] == IAC {
        spec_encode(text, n - 1) + seq![IAC, IAC]
    } else {
        spec_encode(text, n - 1).push(text[n - 1])
    }
}

/// The opening negotiation: we will echo, we will and the client should
/// suppress go-ahead, and we won't do line mode.
pub open spec fn spec_greeting() -> Seq<u8> {
    seq![
        IAC,
        WILL,
        OPT_ECHO,
        IAC,
        WILL,
        OPT_SUPPRESS_GO_AHEAD,
        IAC,
        DO,
        OPT_SUPPRESS_GO_AHEAD,
        IAC,
        WONT,
        OPT_LINEMODE,
    ]
}

impl TelnetTerminal {
    /// The read buffer has its fixed size and the read position lies
    /// within what was read.
    pub open spec fn wf(&self) -> bool {
        self.rx_buf@.len() == RX_CHUNK && self.rx_pos <= self.rx_len <= RX_CHUNK
    }

    /// Bytes read from the socket and not yet decoded.
    pub open spec fn unread(&self) -> Seq<u8> {
        self.rx_buf@.subrange(self.rx_pos as int, self.rx_len as int)
    }

    /// A session on socket `sock`.
    pub fn new(sock: usize) -> (t: TelnetTerminal)
        ensures
            t.wf(),
            t.sock == sock,
            t.unread() == Seq::<u8>::empty(),
            t.rx_state == RxState::Data,
            !t.swallow_lf,
            !t.closed,
            t.pending@ == Seq::<u8>::empty(),
    {
        let mut rx_buf: Vec<u8> = Vec::new();
        let mut i: usize = 0;
        while i < RX_CHUNK
            invariant
                i <= RX_CHUNK,
                rx_buf@.len() == i,
            decreases RX_CHUNK - i,
        {
            rx_buf.push(0u8);
            i += 1;
        }
        let t = TelnetTerminal {
            sock,
            rx_buf,
            rx_pos: 0,
            rx_len: 0,
            rx_state: RxState::Data,
            swallow_lf: false,
            closed: false,
            pending: Vec::new(),
        };
        proof {
            assert(t.unread() =~= Seq::<u8>::empty());
        }
        t
    }

    /// Queues the opening negotiation.
    pub fn negotiate(&mut self)
        ensures
            final(self).pending@ == old(self).pending@ + spec_greeting(),
            final(self).sock == old(self).sock,
            final(self).rx_buf == old(self).rx_buf,
            final(self).rx_pos == old(self).rx_pos,
            final(self).rx_len == old(self).rx_len,
            final(self).rx_state == old(self).rx_state,
            final(self).swallow_lf == old(self).swallow_lf,
            final(self).closed == old(self).closed,
    {
        self.pending.push(IAC);
        self.pending.push(WILL);
        self.pending.push(OPT_ECHO);
        self.pending.push(IAC);
        self.pending.push(WILL);
        self.pending.push(OPT_SUPPRESS_GO_AHEAD);
        self.pending.push(IAC);
        self.pending.push(DO);
        self.pending.push(OPT_SUPPRESS_GO_AHEAD);
        self.pending.push(IAC);
        self.pending.push(WONT);
        self.pending.push(OPT_LINEMODE);
        proof {
            assert(self.pending@ =~= old(self).pending@ + spec_greeting());
        }
    }

    /// Queues the answer to a negotiation command.
    pub fn reply_to_command(&mut self, cmd: u8, opt: u8)
        ensures
            final(self).pending@ == old(self).pending@ + spec_reply(cmd, opt),
            final(self).sock == old(self).sock,
            final(self).rx_buf == old(self).rx_buf,
            final(self).rx_pos == old(self).rx_pos,
            final(self).rx_len == old(self).rx_len,
            final(self).rx_state == old(self).rx_state,
            final(self).swallow_lf == old(self).swallow_lf,
            final(self).closed == old(self).closed,
    {
        let resp: u8 = if cmd == DO && (opt == OPT_ECHO || opt == OPT_SUPPRESS_GO_AHEAD) {
            WILL
        } else if cmd == WILL && opt == OPT_SUPPRESS_GO_AHEAD {
            DO
        } else if cmd == DO || cmd == DONT {
            WONT
        } else if cmd == WILL || cmd == WONT {
            DONT
        } else {
            proof {
                assert(self.pending@ =~= old(self).pending@ + spec_reply(cmd, opt));
            }
            return ;
        };
        self.pending.push(IAC);
        self.pending.push(resp);
        self.pending.push(opt);
        proof {
            assert(self.pending@ =~= old(self).pending@ + spec_reply(cmd, opt));
        }
    }

    /// Decodes one input byte: the result is the byte to hand to the
    /// reader, if the input byte yields one.
    pub fn decode_byte(&mut self, b: u8) -> (emit: Option<u8>)
        ensures
            emit == spec_step(old(self).rx_state, old(self).swallow_lf, b).emit,
            final(self).rx_state == spec_step(old(self).rx_state, old(self).swallow_lf, b).state,
            final(self).swallow_lf == spec_step(old(self).rx_state, old(self).swallow_lf, b).swallow,
            final(self).pending@ == old(self).pending@ + spec_step(
                old(self).rx_state,
                old(self).swallow_lf,
                b,
            ).reply,
            final(self).sock == old(self).sock,
            final(self).rx_buf == old(self).rx_buf,
            final(self).rx_pos == old(self).rx_pos,
            final(self).rx_len == old(self).rx_len,
            final(self).closed == old(self).closed,
    {
        proof {
            assert(self.pending@ + Seq::<u8>::empty() =~= self.pending@);
        }
        if self.swallow_lf {
            self.swallow_lf = false;
            if b == 0x0A {
                return None;
            }
        }
        match self.rx_state {
            RxState::Data => {
                if b == IAC {
                    self.rx_state = RxState::Iac;
                    None
                } else if b == 0x0D {
                    self.swallow_lf = true;
                    Some(0x0A)
                } else {
                    Some(b)
                }
            },
            RxState::Iac => {
                if b == IAC {
                    self.rx_state = RxState::Data;
                    Some(IAC)
                } else if b == DO || b == DONT || b == WILL || b == WONT {
                    self.rx_state = RxState::IacCommand(b);
                    None
                } else if b == SB {
                    self.rx_state = RxState::Subnegotiation;
                    None
                } else {
                    self.rx_state = RxState::Data;
                    None
                }
            },
            RxState::IacCommand(cmd) => {
                self.reply_to_command(cmd, b);
                self.rx_state = RxState::Data;
                None
            },
            RxState::Subnegotiation => {
                if b == IAC {
                    self.rx_state = RxState::SubnegotiationIac;
                }
                None
            },
            RxState::SubnegotiationIac => {
                if b == SE {
                    self.rx_state = RxState::Data;
                } else if b != IAC {
                    self.rx_state = RxState::Subnegotiation;
                }
                None
            },
        }
    }

    /// Queues `text` for sending, encoded for the network virtual
    /// terminal. False, with nothing queued, if the session has ended.
    pub fn write_str(&mut self, text: &str) -> (ok: bool)
        ensures
            ok == !old(self).closed,
            final(self).pending@ == (if old(self).closed {
                old(self).pending@
            } else {
                old(self).pending@ + spec_encode(
                    text.spec_bytes(),
                    text.spec_bytes().len() as int,
                )
            }),
            final(self).sock == old(self).sock,
            final(self).rx_buf == old(self).rx_buf,
            final(self).rx_pos == old(self).rx_pos,
            final(self).rx_len == old(self).rx_len,
            final(self).rx_state == old(self).rx_state,
            final(self).swallow_lf == old(self).swallow_lf,
            final(self).closed == old(self).closed,
    {
        if self.closed {
            return false;
        }
        let bytes: &[u8] = text.as_bytes();
        let mut i: usize = 0;
        proof {
            assert(self.pending@ + Seq::<u8>::empty() =~= self.pending@);
        }
        while i < bytes.len()
            invariant
                bytes@ == text.spec_bytes(),
                i <= bytes@.len(),
                self.pending@ == old(self).pending@ + spec_encode(bytes@, i as int),
                self.sock == old(self).sock,
                self.rx_buf == old(self).rx_buf,
                self.rx_pos == old(self).rx_pos,
                self.rx_len == old(self).rx_len,
                self.rx_state == old(self).rx_state,
                self.swallow_lf == old(self).swallow_lf,
                self.closed == old(self).closed,
            decreases bytes@.len() - i,
        {
            let b: u8 = bytes[i];
            let ghost before = self.pending@;
            if b == 0x0A {
                self.pending.push(0x0D);
                self.pending.push(0x0A);
                proof {
                    assert(self.pending@ =~= before + seq![0x0Du8, 0x0Au8]);
                }
            } else if b == 0x0D {
                self.pending.push(0x0D);
                self.pending.push(0);
                proof {
                    assert(self.pending@ =~= before + seq![0x0Du8, 0u8]);
                }
            } else if b == IAC {
                self.pending.push(IAC);
                self.pending.push(IAC);
                proof {
                    assert(self.pending@ =~= before + seq![IAC, IAC]);
                }
            } else {
                self.pending.push(b);
            }
            i += 1;
            proof {
                assert(self.pending@ =~= old(self).pending@ + spec_encode(bytes@, i as int));
            }
        }
        true
    }
}

/// Whether data can be read from socket `sock`.
pub open spec fn spec_readable(conns: Seq<Tcb>, sock: usize) -> bool {
    spec_valid_sock(conns, sock) && conns[sock as int].state != TcpState::Closed
}

/// The bytes that wait on socket `sock`.
pub open spec fn spec_socket_input(conns: Seq<Tcb>, sock: usize) -> Seq<u8> {
    if spec_readable(conns, sock) {
        conns[sock as int].rx
    } else {
        Seq::empty()
    }
}

/// Whether connection `b` is connection `a` after some of its received
/// bytes were read: only the receive buffer and the advertised window may
/// differ, and the window is either as before or the free buffer space.
pub open spec fn same_but_rx(a: Tcb, b: Tcb) -> bool {
    &&& b == (Tcb { rx: b.rx, rcv_wnd: b.rcv_wnd, ..a })
    &&& (b.rcv_wnd == a.rcv_wnd || b.rcv_wnd == RX_BUFFER_SIZE - b.rx.len())
}

/// What a poll returns after decoding `d`: the byte handed to the reader
/// if there is one; otherwise no-data while the socket can still deliver,
/// and end-of-file once it cannot.
pub open spec fn spec_poll_result(d: Decoded, conns: Seq<Tcb>, sock: usize) -> ReadStatus {
    if d.emitted.len() > 0 {
        ReadStatus::Byte(d.emitted[d.emitted.len() - 1])
    } else if spec_readable(conns, sock) && !conns[sock as int].remote_closed {
        ReadStatus::NoData
    } else {
        ReadStatus::Eof
    }
}

/// Whether the connection tables `a` and `b` differ at most in what was
/// read from socket `sock`.
pub open spec fn only_read_from(a: Seq<Tcb>, b: Seq<Tcb>, sock: usize) -> bool {
    &&& a.len() == b.len()
    &&& forall|i: int| 0 <= i < a.len() && i != sock ==> (#[trigger] b[i]) == a[i]
    &&& (sock < a.len() ==> same_but_rx(a[sock as int], b[sock as int]))
}

/// How many bytes a poll moves from the socket into the session's read
/// buffer when it consumes `k` bytes of input, `unread` of which were in
/// the buffer already and `waiting` on the socket: none if the buffer
/// held enough; otherwise whole chunks, as many as it takes to reach
/// byte `k`, but no more than waited.
pub open spec fn spec_pulled(unread: int, waiting: int, k: int) -> int {
    if k <= unread {
        0
    } else {
        min2(waiting, ((k - unread + RX_CHUNK - 1) / (RX_CHUNK as int)) * RX_CHUNK)
    }
}

/// Where a poll stands after `refills` chunks were read from the socket
/// and `c` bytes consumed: before the first refill nothing has changed
/// on the socket; afterwards whole chunks have been read, the last one
/// begun, and the window advertised is the free buffer space.
spec fn refill_state(
    unread0: int,
    waiting0: int,
    refills: int,
    c: int,
    unread: int,
    before: Seq<Tcb>,
    now: Seq<Tcb>,
    sock: usize,
) -> bool {
    &&& 0 <= refills
    &&& (refills == 0 ==> c <= unread0 && unread == unread0 - c && now == before)
    &&& (refills > 0 ==> {
        &&& unread0 + RX_CHUNK * (refills - 1) < c + unread
        &&& unread0 + RX_CHUNK * (refills - 1) <= c
        &&& RX_CHUNK * (refills - 1) < waiting0
        &&& unread == unread0 + min2(waiting0, RX_CHUNK * refills) - c
        &&& spec_readable(before, sock)
        &&& now[sock as int].rcv_wnd == RX_BUFFER_SIZE - now[sock as int].rx.len()
    })
}

/// When everything that waited has been consumed, everything that
/// waited has been pulled.
proof fn lemma_pulled_all(unread0: int, waiting0: int)
    requires
        0 <= unread0,
        0 <= waiting0,
    ensures
        spec_pulled(unread0, waiting0, unread0 + waiting0) == waiting0,
{
    if waiting0 > 0 {
        let q = (waiting0 + RX_CHUNK - 1) / (RX_CHUNK as int);
        vstd::arithmetic::div_mod::lemma_fundamental_div_mod(
            waiting0 + RX_CHUNK - 1,
            RX_CHUNK as int,
        );
    }
}

/// After `refills` chunks, with the last one begun, the bytes pulled are
/// those that `spec_pulled` names for the bytes consumed.
proof fn lemma_pulled_chunks(unread0: int, waiting0: int, refills: int, k: int)
    requires
        0 <= unread0,
        0 <= waiting0,
        refills > 0,
        unread0 + RX_CHUNK * (refills - 1) < k,
        k <= unread0 + RX_CHUNK * refills,
    ensures
        spec_pulled(unread0, waiting0, k) == min2(waiting0, RX_CHUNK * refills),
{
    let x = k - unread0 + RX_CHUNK - 1;
    vstd::arithmetic::div_mod::lemma_fundamental_div_mod(x, RX_CHUNK as int);
    vstd::arithmetic::div_mod::lemma_fundamental_div_mod_converse(
        x,
        RX_CHUNK as int,
        refills,
        x - RX_CHUNK * refills,
    );
}

/// Decoding one more byte extends the decoding of the bytes before it.
proof fn lemma_decode_next(state: RxState, swallow: bool, input: Seq<u8>, c: int)
    requires
        0 <= c < input.len(),
    ensures
        ({
            let before = spec_decode(state, swallow, input, c);
            let step = spec_step(before.state, before.swallow, input[c]);
            let after = spec_decode(state, swallow, input, c + 1);
            &&& after.state == step.state
            &&& after.swallow == step.swallow
            &&& after.replies == before.replies + step.reply
            &&& after.emitted == (match step.emit {
                Some(b) => before.emitted.push(b),
                None => before.emitted,
            })
        }),
{
}

impl TelnetTerminal {
    /// All input that is available now: what was read and not yet
    /// decoded, followed by what waits on the socket.
    pub open spec fn input(&self, conns: Seq<Tcb>) -> Seq<u8> {
        self.unread() + spec_socket_input(conns, self.sock)
    }

    /// Polls for one input byte.
    ///
    /// Available input is decoded until a byte for the reader comes out;
    /// answers to negotiation commands met on the way are queued for
    /// sending. The input consumed is exactly the bytes up to the one
    /// that produced the result; what follows stays available, in order.
    /// When the input runs out first, the result is no-data, or
    /// end-of-file if the socket cannot deliver any more, which ends the
    /// session. A session that has ended returns end-of-file.
    ///
    /// The socket is read in chunks, only when the read buffer is empty:
    /// the bytes moved from it are those of `spec_pulled`, and each read
    /// advertises the space that it freed.
    pub fn poll_byte(&mut self, stack: &mut TcpStack) -> (r: ReadStatus)
        requires
            old(self).wf(),
            old(stack).wf(),
        ensures
            final(self).wf(),
            final(stack).wf(),
            final(self).sock == old(self).sock,
            final(stack).next_port == old(stack).next_port,
            old(self).closed ==> r == ReadStatus::Eof && final(self).closed && final(self).pending
                == old(self).pending
                    && final(self).rx_state == old(self).rx_state
                    && final(self).swallow_lf == old(self).swallow_lf
                    && final(self).unread() == old(self).unread()
                && final(stack).conns() == old(stack).conns(),
            !old(self).closed ==> ({
                let input = old(self).input(old(stack).conns());
                let k = spec_scan(old(self).rx_state, old(self).swallow_lf, input, 0);
                let d = spec_decode(old(self).rx_state, old(self).swallow_lf, input, k);
                &&& final(self).rx_state == d.state
                &&& final(self).swallow_lf == d.swallow
                &&& final(self).pending@ == old(self).pending@ + d.replies
                &&& r == spec_poll_result(d, old(stack).conns(), old(self).sock)
                &&& final(self).closed == (r == ReadStatus::Eof)
                &&& final(self).input(final(stack).conns()) == input.subrange(
                    k,
                    input.len() as int,
                )
                &&& only_read_from(old(stack).conns(), final(stack).conns(), old(self).sock)
                &&& (!spec_readable(old(stack).conns(), old(self).sock) ==> final(stack).conns()
                    == old(stack).conns())
                &&& final(self).unread().len() == old(self).unread().len() + spec_pulled(
                    old(self).unread().len() as int,
                    spec_socket_input(old(stack).conns(), old(self).sock).len() as int,
                    k,
                ) - k
                &&& spec_readable(old(stack).conns(), old(self).sock) ==> ({
                    let before = old(stack).conns()[old(self).sock as int];
                    let after = final(stack).conns()[old(self).sock as int];
                    after.rcv_wnd == (if k > old(self).unread().len() || d.emitted.len() == 0 {
                        (RX_BUFFER_SIZE - after.rx.len()) as u16
                    } else {
                        before.rcv_wnd
                    })
                })
            }),
    {
        if self.closed {
            return ReadStatus::Eof;
        }
        let ghost input = self.input(stack.conns());
        let ghost s0 = self.rx_state;
        let ghost sw0 = self.swallow_lf;
        let ghost c: int = 0;
        let ghost unread0 = self.unread().len() as int;
        let ghost waiting0 = spec_socket_input(stack.conns(), self.sock).len() as int;
        let ghost refills: int = 0;
        proof {
            assert(input.subrange(0, input.len() as int) =~= input);
            assert(self.pending@ + Seq::<u8>::empty() =~= self.pending@);
        }
        loop
            invariant
                self.wf(),
                stack.wf(),
                !self.closed,
                !old(self).closed,
                self.sock == old(self).sock,
                stack.next_port == old(stack).next_port,
                input == old(self).input(old(stack).conns()),
                s0 == old(self).rx_state,
                sw0 == old(self).swallow_lf,
                0 <= c <= input.len(),
                self.input(stack.conns()) == input.subrange(c, input.len() as int),
                spec_scan(s0, sw0, input, 0) == spec_scan(
                    self.rx_state,
                    self.swallow_lf,
                    input,
                    c,
                ),
                spec_decode(s0, sw0, input, c).state == self.rx_state,
                spec_decode(s0, sw0, input, c).swallow == self.swallow_lf,
                spec_decode(s0, sw0, input, c).emitted.len() == 0,
                self.pending@ == old(self).pending@ + spec_decode(s0, sw0, input, c).replies,
                only_read_from(old(stack).conns(), stack.conns(), self.sock),
                unread0 == old(self).unread().len(),
                waiting0 == spec_socket_input(old(stack).conns(), old(self).sock).len(),
                input.len() == unread0 + waiting0,
                refill_state(
                    unread0,
                    waiting0,
                    refills,
                    c,
                    self.unread().len() as int,
                    old(stack).conns(),
                    stack.conns(),
                    self.sock,
                ),
            decreases
                    2 * (input.len() - c) + (if self.rx_pos >= self.rx_len {
                        1int
                    } else {
                        0int
                    }),
        {
            if self.rx_pos >= self.rx_len {
                let ghost before_conns = stack.conns();
                proof {
                    assert(self.unread() =~= Seq::<u8>::empty());
                    assert(spec_socket_input(before_conns, self.sock) =~= input.subrange(
                        c,
                        input.len() as int,
                    ));
                }
                let n: isize = self.refill(stack);
                proof {
                    assert(self.input(stack.conns()) =~= input.subrange(c, input.len() as int));
                }
                if n < 0 {
                    self.closed = true;
                    proof {
                        lemma_pulled_all(unread0, waiting0);
                    }
                    return ReadStatus::Eof;
                }
                if n == 0 {
                    proof {
                        lemma_pulled_all(unread0, waiting0);
                    }
                    return ReadStatus::NoData;
                }
                proof {
                    refills = refills + 1;
                }
            }
            let ghost avail = self.input(stack.conns());
            let ghost unread_before = self.unread();
            let b: u8 = self.take_byte();
            assert(b == avail[0]);
            assert(b == input[c]);
            let emit: Option<u8> = self.decode_byte(b);
            proof {
                lemma_decode_next(s0, sw0, input, c);
                assert(avail == unread_before + spec_socket_input(stack.conns(), self.sock));
                assert(self.input(stack.conns()) =~= avail.subrange(1, avail.len() as int));
                assert(avail.subrange(1, avail.len() as int) =~= input.subrange(
                    c + 1,
                    input.len() as int,
                ));
                let before = spec_decode(s0, sw0, input, c);
                let step = spec_step(before.state, before.swallow, input[c]);
                assert(old(self).pending@ + (before.replies + step.reply) =~= (old(self).pending@
                    + before.replies) + step.reply);
                c = c + 1;
                if refills > 0 {
                    lemma_pulled_chunks(unread0, waiting0, refills, c);
                }
            }
            match emit {
                Some(x) => {
                    return ReadStatus::Byte(x);
                },
                None => {},
            }
        }
    }

    /// Reads the next chunk from the socket into the exhausted read
    /// buffer. The result is what the socket's read returned.
    fn refill(&mut self, stack: &mut TcpStack) -> (n: isize)
        requires
            old(self).wf(),
            old(stack).wf(),
            old(self).rx_pos >= old(self).rx_len,
        ensures
            final(self).wf(),
            final(stack).wf(),
            final(self).sock == old(self).sock,
            final(self).rx_state == old(self).rx_state,
            final(self).swallow_lf == old(self).swallow_lf,
            final(self).closed == old(self).closed,
            final(self).pending == old(self).pending,
            final(stack).next_port == old(stack).next_port,
            !spec_readable(old(stack).conns(), old(self).sock) ==> n == -1 && final(stack).conns()
                == old(stack).conns()
                && final(self).unread() == Seq::<u8>::empty(),
            spec_readable(old(stack).conns(), old(self).sock) ==> ({
                let conn = old(stack).conns()[old(self).sock as int];
                let m = min2(RX_CHUNK as int, conn.rx.len() as int);
                &&& final(self).unread() == conn.rx.subrange(0, m)
                &&& final(stack).conns() == old(stack).conns().update(
                    old(self).sock as int,
                    Tcb {
                        rx: conn.rx.subrange(m, conn.rx.len() as int),
                        rcv_wnd: (RX_BUFFER_SIZE - (conn.rx.len() - m)) as u16,
                        ..conn
                    },
                )
                &&& n == (if m > 0 {
                    m
                } else if conn.remote_closed {
                    -1
                } else {
                    0
                })
            }),
    {
        self.rx_pos = 0;
        self.rx_len = 0;
        let n: isize = crate::net::tcp::recv(stack, self.sock, &mut self.rx_buf);
        if n > 0 {
            self.rx_len = n as usize;
        }
        proof {
            if spec_readable(old(stack).conns(), old(self).sock) {
                let conn = old(stack).conns()[old(self).sock as int];
                let m = min2(RX_CHUNK as int, conn.rx.len() as int);
                assert(self.unread() =~= conn.rx.subrange(0, m));
            } else {
                assert(self.unread() =~= Seq::<u8>::empty());
            }
        }
        n
    }

    /// Takes the next byte out of the read buffer.
    fn take_byte(&mut self) -> (b: u8)
        requires
            old(self).wf(),
            old(self).rx_pos < old(self).rx_len,
        ensures
            final(self).wf(),
            b == old(self).unread()[0],
            final(self).unread() == old(self).unread().subrange(
                1,
                old(self).unread().len() as int,
            ),
            final(self).sock == old(self).sock,
            final(self).rx_state == old(self).rx_state,
            final(self).swallow_lf == old(self).swallow_lf,
            final(self).closed == old(self).closed,
            final(self).pending == old(self).pending,
    {
        let b: u8 = self.rx_buf[self.rx_pos];
        self.rx_pos = self.rx_pos + 1;
        proof {
            assert(self.unread() =~= old(self).unread().subrange(
                1,
                old(self).unread().len() as int,
            ));
        }
        b
    }

    /// Hands queued output to the socket, as much as its send buffer
    /// takes. The caller yields and tries again while the result is
    /// `WouldBlock`. A socket that cannot send ends the session.
    pub fn flush(&mut self, stack: &mut TcpStack) -> (r: FlushStatus)
        requires
            old(stack).wf(),
        ensures
            final(stack).wf(),
            final(stack).next_port == old(stack).next_port,
            final(self).sock == old(self).sock,
            final(self).rx_buf == old(self).rx_buf,
            final(self).rx_pos == old(self).rx_pos,
            final(self).rx_len == old(self).rx_len,
            final(self).rx_state == old(self).rx_state,
            final(self).swallow_lf == old(self).swallow_lf,
            old(self).pending@.len() == 0
                ==> r == FlushStatus::Done
                    && final(self).closed == old(self).closed
                    && final(self).pending@ == old(self).pending@
                    && final(stack).conns() == old(stack).conns(),
            old(self).pending@.len() > 0 && !crate::net::tcp::spec_can_send(
                old(stack).conns(),
                old(self).sock,
            ) ==> r == FlushStatus::Closed
                && final(self).closed
                && final(self).pending@ == old(self).pending@
                && final(stack).conns() == old(stack).conns(),
            old(self).pending@.len() > 0 && crate::net::tcp::spec_can_send(
                old(stack).conns(),
                old(self).sock,
            ) ==> ({
                let conn = old(stack).conns()[old(self).sock as int];
                let n = min2(old(self).pending@.len() as int, TX_BUFFER_SIZE - conn.tx.len());
                &&& final(self).closed == old(self).closed
                &&& final(self).pending@ == old(self).pending@.subrange(
                    n,
                    old(self).pending@.len() as int,
                )
                &&& final(stack).conns() == old(stack).conns().update(
                    old(self).sock as int,
                    Tcb { tx: conn.tx + old(self).pending@.subrange(0, n), ..conn },
                )
                &&& r == (if n == old(self).pending@.len() {
                    FlushStatus::Done
                } else {
                    FlushStatus::WouldBlock
                })
            }),
    {
        if self.pending.len() == 0 {
            return FlushStatus::Done;
        }
        let n: isize = crate::net::tcp::send(stack, self.sock, self.pending.as_slice());
        if n < 0 {
            self.closed = true;
            return FlushStatus::Closed;
        }
        let taken: usize = n as usize;
        let total: usize = self.pending.len();
        let mut rest: Vec<u8> = Vec::new();
        let mut i: usize = taken;
        while i < total
            invariant
                total == self.pending@.len(),
                taken <= i <= total,
                rest@ == self.pending@.subrange(taken as int, i as int),
            decreases total - i,
        {
            rest.push(self.pending[i]);
            i += 1;
            proof {
                assert(rest@ =~= self.pending@.subrange(taken as int, i as int));
            }
        }
        self.pending = rest;
        if taken == total {
            FlushStatus::Done
        } else {
            FlushStatus::WouldBlock
        }
    }
}

/// Opens the telnet server: takes a socket and listens on the telnet
/// port. The result is the listening socket.
pub fn telnetd_start(stack: &mut TcpStack, iface: &NetInterface) -> (r: Option<usize>)
    requires
        old(stack).wf(),
    ensures
        final(stack).wf(),
        final(stack).next_port == old(stack).next_port,
        match r {
            Some(sock) => {
                &&& sock == unused_index(old(stack).conns(), 0)
                &&& sock < MAX_CONNECTIONS
                &&& final(stack).conns() == old(stack).conns().update(
                    sock as int,
                    Tcb {
                        local_ip: iface.config.ip,
                        local_port: TELNET_PORT,
                        state: TcpState::Listen,
                        ..spec_taken_tcb()
                    },
                )
            },
            None => unused_index(old(stack).conns(), 0) == MAX_CONNECTIONS && final(stack).conns()
                == old(stack).conns(),
        },
{
    let sock: usize = match crate::net::tcp::socket(stack) {
        Some(s) => s,
        None => {
            return None;
        },
    };
    let ghost taken = stack.conns();
    let listening: bool = crate::net::tcp::listen(stack, iface, sock, TELNET_PORT);
    proof {
        assert(crate::net::tcp::spec_new_tcb().state == TcpState::Closed);
        assert(stack.conns() =~= old(stack).conns().update(
            sock as int,
            Tcb {
                local_ip: iface.config.ip,
                local_port: TELNET_PORT,
                state: TcpState::Listen,
                ..spec_taken_tcb()
            },
        ));
    }
    if listening {
        Some(sock)
    } else {
        None
    }
}

/// One look of the telnet server at its listening socket: the socket of
/// an established client, if there is one. The caller starts a session
/// on it, or sleeps 25 ms if there is none.
pub fn telnetd_task(stack: &TcpStack, listener: usize) -> (r: Option<usize>)
    requires
        stack.wf(),
    ensures
        !spec_valid_sock(stack.conns(), listener) || stack.conns()[listener as int].state
            != TcpState::Listen ==> r.is_none(),
        spec_valid_sock(stack.conns(), listener) && stack.conns()[listener as int].state
            == TcpState::Listen ==> ({
            let i = crate::net::tcp::accept_index(
                stack.conns(),
                listener,
                stack.conns()[listener as int].local_port,
                0,
            );
            if i < MAX_CONNECTIONS {
                r == Some(i as usize)
            } else {
                r.is_none()
            }
        }),
{
    crate::net::tcp::accept(stack, listener)
}

} // verus!
