use ralph_os::net::interface::{default_config, NetInterface};
use ralph_os::net::tcp::{socket, TcpStack, TcpState};
use ralph_os::telnet::{
    telnetd_start, telnetd_task, FlushStatus, RxState, TelnetTerminal, DO, DONT, IAC, SB, SE,
    TELNET_PORT, WILL, WONT,
};
use ralph_os::terminal::{serial_bytes, ReadStatus};

/// A stack whose socket 0 is established, with `input` waiting on it.
fn session(input: &[u8]) -> (TcpStack, TelnetTerminal) {
    let mut t = TcpStack::new();
    let s = socket(&mut t).unwrap();
    t.connections[s].state = TcpState::Established;
    assert_eq!(t.connections[s].rx_buffer.write(input), input.len());
    (t, TelnetTerminal::new(s))
}

fn read_all(term: &mut TelnetTerminal, t: &mut TcpStack) -> (Vec<u8>, ReadStatus) {
    let mut out = Vec::new();
    loop {
        match term.poll_byte(t) {
            ReadStatus::Byte(b) => out.push(b),
            other => return (out, other),
        }
    }
}

#[test]
fn crlf_lines_arrive_as_lines() {
    let (mut t, mut term) = session(&[0x0D, 0x0A, b'L', b'I', b'S', b'T', 0x0D, 0x0A]);
    let (bytes, end) = read_all(&mut term, &mut t);
    assert_eq!(bytes, b"\nLIST\n");
    assert_eq!(end, ReadStatus::NoData);
    let lines: Vec<&[u8]> = bytes.split(|&b| b == b'\n').filter(|l| !l.is_empty()).collect();
    assert_eq!(lines, vec![b"LIST" as &[u8]]);
    assert!(term.pending.is_empty());
}

#[test]
fn bare_cr_and_bare_lf() {
    let (mut t, mut term) = session(b"a\rb\nc\r\0d");
    let (bytes, _) = read_all(&mut term, &mut t);
    // only a line feed directly behind a carriage return is swallowed
    assert_eq!(bytes, b"a\nb\nc\n\0d");
}

#[test]
fn negotiation_is_answered_and_filtered() {
    let input = [b'x', IAC, DO, 1, IAC, DO, 3, IAC, WILL, 3, IAC, DO, 24, IAC, DONT, 1, IAC, WILL, 31, IAC, WONT, 5, b'y'];
    let (mut t, mut term) = session(&input);
    let (bytes, _) = read_all(&mut term, &mut t);
    assert_eq!(bytes, b"xy");
    assert_eq!(
        term.pending,
        vec![
            IAC, WILL, 1, IAC, WILL, 3, IAC, DO, 3, IAC, WONT, 24, IAC, WONT, 1, IAC, DONT, 31,
            IAC, DONT, 5
        ]
    );
}

#[test]
fn doubled_iac_and_subnegotiation() {
    let input = [b'a', IAC, IAC, b'b', IAC, SB, 24, 1, IAC, IAC, 9, IAC, SE, b'c', IAC, SE, b'd', IAC, 241, b'e'];
    let (mut t, mut term) = session(&input);
    let (bytes, _) = read_all(&mut term, &mut t);
    assert_eq!(bytes, vec![b'a', 255, b'b', b'c', b'd', b'e']);
    assert!(term.pending.is_empty());
    assert_eq!(term.rx_state, RxState::Data);
}

#[test]
fn decoder_state_survives_between_polls() {
    let (mut t, mut term) = session(&[IAC]);
    assert_eq!(term.poll_byte(&mut t), ReadStatus::NoData);
    assert_eq!(term.rx_state, RxState::Iac);
    t.connections[0].rx_buffer.write(&[DO]);
    assert_eq!(term.poll_byte(&mut t), ReadStatus::NoData);
    assert_eq!(term.rx_state, RxState::IacCommand(DO));
    t.connections[0].rx_buffer.write(&[1, b'\r']);
    assert_eq!(term.poll_byte(&mut t), ReadStatus::Byte(b'\n'));
    assert!(term.swallow_lf);
    t.connections[0].rx_buffer.write(&[b'\n', b'z']);
    assert_eq!(term.poll_byte(&mut t), ReadStatus::Byte(b'z'));
    assert_eq!(term.pending, vec![IAC, WILL, 1]);
}

#[test]
fn input_longer_than_one_chunk_keeps_order() {
    let input: Vec<u8> = (0..1000u32).map(|k| b'a' + (k % 26) as u8).collect();
    let (mut t, mut term) = session(&input);
    assert_eq!(term.poll_byte(&mut t), ReadStatus::Byte(b'a'));
    // one chunk has been read from the socket, the rest still waits
    assert_eq!(t.connections[0].bytes_available(), 1000 - 128);
    assert_eq!(t.connections[0].rcv_wnd, (2048 - (1000 - 128)) as u16);
    assert_eq!(term.rx_len - term.rx_pos, 127);
    // the next bytes come out of the chunk: the socket is left alone
    t.connections[0].rcv_wnd = 7;
    assert_eq!(term.poll_byte(&mut t), ReadStatus::Byte(b'b'));
    assert_eq!(t.connections[0].bytes_available(), 1000 - 128);
    assert_eq!(t.connections[0].rcv_wnd, 7);
    let input = &input[1..];
    let (bytes, end) = read_all(&mut term, &mut t);
    assert_eq!(bytes, &input[1..]);
    assert_eq!(end, ReadStatus::NoData);
}

#[test]
fn end_of_stream_ends_the_session() {
    let (mut t, mut term) = session(b"ok");
    t.connections[0].remote_closed = true;
    assert_eq!(term.poll_byte(&mut t), ReadStatus::Byte(b'o'));
    assert_eq!(term.poll_byte(&mut t), ReadStatus::Byte(b'k'));
    assert!(!term.closed);
    assert_eq!(term.poll_byte(&mut t), ReadStatus::Eof);
    assert!(term.closed);
    t.connections[0].rx_buffer.write(b"late");
    assert_eq!(term.poll_byte(&mut t), ReadStatus::Eof);
    assert!(!term.write_str("x"));
    assert!(term.pending.is_empty());

    let mut t = TcpStack::new();
    let mut term = TelnetTerminal::new(2);
    assert_eq!(term.poll_byte(&mut t), ReadStatus::Eof);
}

#[test]
fn output_is_encoded_and_flushed() {
    let (mut t, mut term) = session(b"");
    term.negotiate();
    assert_eq!(term.pending, vec![IAC, WILL, 1, IAC, WILL, 3, IAC, DO, 3, IAC, WONT, 34]);
    assert_eq!(term.flush(&mut t), FlushStatus::Done);
    assert!(term.pending.is_empty());
    assert!(term.write_str("a\nb\rc\u{ff}"));
    // U+00FF is two bytes in UTF-8, neither of which is 255
    assert_eq!(term.pending, vec![b'a', b'\r', b'\n', b'b', b'\r', 0, b'c', 0xC3, 0xBF]);
    assert_eq!(term.flush(&mut t), FlushStatus::Done);
    assert_eq!(t.connections[0].bytes_pending(), 12 + 9);
    assert_eq!(term.flush(&mut t), FlushStatus::Done);

    // a full send buffer takes part and leaves the rest
    t.connections[0].tx_buffer.write(&vec![0u8; 2048 - 21 - 2]);
    assert!(term.write_str("12345"));
    assert_eq!(term.flush(&mut t), FlushStatus::WouldBlock);
    assert_eq!(term.pending, b"345".to_vec());
    assert_eq!(term.flush(&mut t), FlushStatus::WouldBlock);
    assert_eq!(term.pending, b"345".to_vec());
    t.connections[0].state = TcpState::Closed;
    assert_eq!(term.flush(&mut t), FlushStatus::Closed);
    assert!(term.closed);
}

#[test]
fn reply_table() {
    let mut term = TelnetTerminal::new(0);
    for (cmd, opt) in [(DO, 1u8), (DO, 3), (WILL, 3), (DO, 9), (DONT, 3), (WILL, 1), (WONT, 3), (SB, 1), (0, 0)] {
        term.reply_to_command(cmd, opt);
    }
    assert_eq!(
        term.pending,
        vec![
            IAC, WILL, 1, IAC, WILL, 3, IAC, DO, 3, IAC, WONT, 9, IAC, WONT, 3, IAC, DONT, 1, IAC,
            DONT, 3
        ]
    );
    assert_eq!(term.decode_byte(b'q'), Some(b'q'));
}

#[test]
fn server_listens_on_port_23() {
    let mut t = TcpStack::new();
    let iface = NetInterface::new(default_config(), [1, 2, 3, 4, 5, 6]);
    let l = telnetd_start(&mut t, &iface).unwrap();
    assert_eq!(t.connections[l].state, TcpState::Listen);
    assert_eq!(t.connections[l].local_port, TELNET_PORT);
    assert_eq!(t.connections[l].local_ip, [10, 0, 2, 15]);
    assert_eq!(telnetd_task(&t, l), None);
    let c = socket(&mut t).unwrap();
    t.connections[c].state = TcpState::Established;
    t.connections[c].local_port = 23;
    assert_eq!(telnetd_task(&t, l), Some(c));
    for _ in 0..2 {
        socket(&mut t).unwrap();
    }
    assert_eq!(telnetd_start(&mut t, &iface), None);
}

#[test]
fn serial_output_turns_lf_into_crlf() {
    assert_eq!(serial_bytes("a\nb\r\n"), b"a\r\nb\r\r\n".to_vec());
    assert_eq!(serial_bytes(""), Vec::<u8>::new());
}
