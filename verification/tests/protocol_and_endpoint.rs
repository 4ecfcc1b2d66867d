use ais_forwarder::buffer::{BufReaderDirectWriter, BufWriterDirectReader};
use ais_forwarder::endpoint::{
    split_url, EndpointError, Failure, NetworkEndpoint, ReadAction, ReadEvent, SendAction,
    SendEvent, DATAGRAM_LIMIT, KEEPALIVE_IDLE_SECS, KEEPALIVE_INTERVAL_SECS,
};
use ais_forwarder::lines::split_lines;
use ais_forwarder::protocol::{InvalidProtocol, Protocol};

type Endpoint = NetworkEndpoint<u8, u32, u16>;

fn endpoint(protocol: Protocol) -> Endpoint {
    NetworkEndpoint::new(protocol, b"127.0.0.1:10110".to_vec())
}

fn streams(e: &Endpoint) -> Vec<u32> {
    e.tcp_stream.iter().map(|s| *s.get_ref()).collect()
}

#[test]
fn protocol_reads_the_four_schemes() {
    assert_eq!(Protocol::from_str("tcp"), Ok(Protocol::TCP));
    assert_eq!(Protocol::from_str("udp"), Ok(Protocol::UDP));
    assert_eq!(Protocol::from_str("tcp-listen"), Ok(Protocol::TCPListen));
    assert_eq!(Protocol::from_str("udp-listen"), Ok(Protocol::UDPListen));
    assert_eq!(Protocol::from_bytes(b"udp-listen"), Ok(Protocol::UDPListen));
}

#[test]
fn protocol_refuses_other_schemes() {
    assert_eq!(Protocol::from_str(""), Err(InvalidProtocol));
    assert_eq!(Protocol::from_str("TCP"), Err(InvalidProtocol));
    assert_eq!(Protocol::from_str("tcp-listem"), Err(InvalidProtocol));
    assert_eq!(Protocol::from_str("tcp-listen "), Err(InvalidProtocol));
    assert_eq!(Protocol::from_str("http"), Err(InvalidProtocol));
    assert_eq!(Protocol::from_str("ud"), Err(InvalidProtocol));
    assert_eq!(Protocol::from_str("xxx-listen"), Err(InvalidProtocol));
}

#[test]
fn protocol_writes_its_scheme() {
    assert_eq!(Protocol::TCP.scheme_bytes(), b"tcp".to_vec());
    assert_eq!(Protocol::UDP.scheme_bytes(), b"udp".to_vec());
    assert_eq!(Protocol::TCPListen.scheme_bytes(), b"tcp-listen".to_vec());
    assert_eq!(Protocol::UDPListen.scheme_bytes(), b"udp-listen".to_vec());
}

#[test]
fn protocol_scheme_round_trip() {
    for p in [Protocol::TCP, Protocol::UDP, Protocol::TCPListen, Protocol::UDPListen] {
        assert_eq!(Protocol::from_bytes(&p.scheme_bytes()), Ok(p));
    }
}

#[test]
fn url_is_split_at_its_separator() {
    assert_eq!(
        split_url(b"tcp://localhost:10110"),
        Ok((Protocol::TCP, b"localhost:10110".to_vec()))
    );
    assert_eq!(
        split_url(b"udp-listen://0.0.0.0:2000"),
        Ok((Protocol::UDPListen, b"0.0.0.0:2000".to_vec()))
    );
    assert_eq!(split_url(b"udp://"), Ok((Protocol::UDP, Vec::new())));
    assert_eq!(split_url(b"tcp://[::1]:80"), Ok((Protocol::TCP, b"[::1]:80".to_vec())));
}

#[test]
fn url_without_one_separator_is_refused() {
    assert_eq!(split_url(b""), Err(EndpointError::InvalidFormat));
    assert_eq!(split_url(b"tcp"), Err(EndpointError::InvalidFormat));
    assert_eq!(split_url(b"tcp:/localhost:1"), Err(EndpointError::InvalidFormat));
    assert_eq!(split_url(b"tcp://a://b"), Err(EndpointError::InvalidFormat));
    assert_eq!(split_url(b"tcp://host:1://"), Err(EndpointError::InvalidFormat));
    assert_eq!(split_url(b":/"), Err(EndpointError::InvalidFormat));
}

#[test]
fn url_with_unknown_scheme_is_refused() {
    assert_eq!(split_url(b"http://localhost:80"), Err(EndpointError::InvalidProtocol));
    assert_eq!(split_url(b"://localhost:80"), Err(EndpointError::InvalidProtocol));
    assert_eq!(split_url(b"Tcp://localhost:80"), Err(EndpointError::InvalidProtocol));
}

#[test]
fn endpoint_text_is_scheme_and_address() {
    assert_eq!(endpoint(Protocol::TCP).to_text(), b"tcp://127.0.0.1:10110".to_vec());
    assert_eq!(
        endpoint(Protocol::UDPListen).to_text(),
        b"udp-listen://127.0.0.1:10110".to_vec()
    );
    let e = endpoint(Protocol::TCPListen);
    assert_eq!(split_url(&e.to_text()), Ok((Protocol::TCPListen, b"127.0.0.1:10110".to_vec())));
}

#[test]
fn endpoint_constants() {
    assert_eq!(KEEPALIVE_IDLE_SECS, 30);
    assert_eq!(KEEPALIVE_INTERVAL_SECS, 30);
    assert_eq!(DATAGRAM_LIMIT, 1024);
}

#[test]
fn new_endpoint_has_nothing_open() {
    let e = endpoint(Protocol::TCP);
    assert_eq!(e.protocol, Protocol::TCP);
    assert_eq!(e.addr, b"127.0.0.1:10110".to_vec());
    assert!(e.tcp_listener.is_none());
    assert!(e.tcp_stream.is_empty());
    assert!(e.udp_socket.is_none());
}

#[test]
fn tcp_send_connects_lazily_and_writes() {
    let mut e = endpoint(Protocol::TCP);
    assert_eq!(e.send_step(SendEvent::Start), SendAction::Connect);
    assert_eq!(e.send_step(SendEvent::Connected(7)), SendAction::Write);
    assert_eq!(streams(&e), vec![7]);
    assert_eq!(e.send_step(SendEvent::Sent), SendAction::Done);
    assert_eq!(streams(&e), vec![7]);
    // the next payload goes over the same stream, after its peer was asked for
    assert_eq!(e.send_step(SendEvent::Start), SendAction::Prune);
    assert_eq!(e.send_step(SendEvent::Peers(vec![true])), SendAction::Write);
    assert_eq!(e.send_step(SendEvent::Sent), SendAction::Done);
    assert_eq!(streams(&e), vec![7]);
}

#[test]
fn tcp_send_error_forces_fresh_connect() {
    let mut e = endpoint(Protocol::TCP);
    assert_eq!(e.send_step(SendEvent::Start), SendAction::Connect);
    assert_eq!(e.send_step(SendEvent::Connected(7)), SendAction::Write);
    assert_eq!(
        e.send_step(SendEvent::SendFailed),
        SendAction::Fail(Failure::ConnectionRefused)
    );
    assert!(e.tcp_stream.is_empty());
    assert_eq!(e.send_step(SendEvent::Start), SendAction::Connect);
    assert_eq!(e.send_step(SendEvent::Connected(8)), SendAction::Write);
    assert_eq!(streams(&e), vec![8]);
}

#[test]
fn tcp_send_drops_stream_whose_peer_is_gone() {
    let mut e = endpoint(Protocol::TCP);
    e.send_step(SendEvent::Start);
    e.send_step(SendEvent::Connected(7));
    assert_eq!(e.send_step(SendEvent::Start), SendAction::Prune);
    assert_eq!(e.send_step(SendEvent::Peers(vec![false])), SendAction::Connect);
    assert!(e.tcp_stream.is_empty());
}

#[test]
fn tcp_send_failures_are_told_apart() {
    let mut e = endpoint(Protocol::TCP);
    assert_eq!(
        e.send_step(SendEvent::ConnectFailed),
        SendAction::Fail(Failure::ConnectionRefused)
    );
    // a keepalive that cannot be switched on counts as a refused connection too
    assert_eq!(
        e.send_step(SendEvent::ConfigureFailed),
        SendAction::Fail(Failure::ConnectionRefused)
    );
    assert_eq!(e.send_step(SendEvent::Bound(1)), SendAction::Fail(Failure::Unexpected));
    assert_eq!(e.send_step(SendEvent::BindFailed), SendAction::Fail(Failure::Unexpected));
    assert!(e.tcp_stream.is_empty());
    assert!(e.udp_socket.is_none());
}

#[test]
fn tcp_send_drops_the_streams_on_any_error() {
    for failed in [0, 1, 2] {
        let mut e = endpoint(Protocol::TCP);
        e.send_step(SendEvent::Connected(7));
        assert_eq!(streams(&e), vec![7]);
        let event = match failed {
            0 => SendEvent::ConnectFailed,
            1 => SendEvent::ConfigureFailed,
            _ => SendEvent::SendFailed,
        };
        assert_eq!(e.send_step(event), SendAction::Fail(Failure::ConnectionRefused));
        assert!(e.tcp_stream.is_empty());
        assert_eq!(e.send_step(SendEvent::Start), SendAction::Connect);
    }
}

#[test]
fn tcp_keeps_a_single_outgoing_stream() {
    let mut e = endpoint(Protocol::TCP);
    e.send_step(SendEvent::Connected(7));
    assert_eq!(e.send_step(SendEvent::Connected(8)), SendAction::Write);
    assert_eq!(streams(&e), vec![7]);
    assert_eq!(e.read_step(ReadEvent::Connected(9)), ReadAction::Read(0));
    assert_eq!(streams(&e), vec![7]);
}

#[test]
fn udp_send_binds_lazily() {
    let mut e = endpoint(Protocol::UDP);
    assert_eq!(e.send_step(SendEvent::Start), SendAction::Bind);
    assert_eq!(e.send_step(SendEvent::Bound(5)), SendAction::Send);
    assert_eq!(e.udp_socket, Some(5));
    assert_eq!(e.send_step(SendEvent::Sent), SendAction::Done);
    assert_eq!(e.send_step(SendEvent::Start), SendAction::Send);
    assert_eq!(
        e.send_step(SendEvent::SendFailed),
        SendAction::Fail(Failure::ConnectionRefused)
    );
    // a datagram socket stays after a failure
    assert_eq!(e.udp_socket, Some(5));
    assert_eq!(e.send_step(SendEvent::Start), SendAction::Send);
}

#[test]
fn udp_send_failures_are_told_apart() {
    let mut e = endpoint(Protocol::UDP);
    assert_eq!(
        e.send_step(SendEvent::BindFailed),
        SendAction::Fail(Failure::ConnectionRefused)
    );
    assert_eq!(e.send_step(SendEvent::ConfigureFailed), SendAction::Fail(Failure::Reported));
    assert_eq!(e.send_step(SendEvent::Connected(1)), SendAction::Fail(Failure::Unexpected));
    assert_eq!(e.send_step(SendEvent::ConnectFailed), SendAction::Fail(Failure::Unexpected));
    assert_eq!(e.send_step(SendEvent::Peers(vec![])), SendAction::Fail(Failure::Unexpected));
    assert!(e.udp_socket.is_none());
    assert!(e.tcp_stream.is_empty());
}

#[test]
fn listening_endpoints_are_no_sinks() {
    for p in [Protocol::TCPListen, Protocol::UDPListen] {
        let mut e = endpoint(p);
        assert_eq!(e.send_step(SendEvent::Start), SendAction::Done);
        assert_eq!(e.send_step(SendEvent::Connected(3)), SendAction::Done);
        assert_eq!(e.send_step(SendEvent::SendFailed), SendAction::Done);
        assert!(e.tcp_stream.is_empty());
        assert!(e.udp_socket.is_none());
        assert!(e.tcp_listener.is_none());
    }
}

#[test]
fn prune_drops_the_streams_that_are_gone() {
    let mut e = endpoint(Protocol::TCPListen);
    for s in [10, 11, 12, 13, 14] {
        assert_eq!(e.read_step(ReadEvent::Accepted(s)), ReadAction::Accept);
    }
    e.prune(&vec![true, false, true, false]);
    // the fifth stream is not spoken of and stays
    assert_eq!(streams(&e), vec![10, 12, 14]);
    e.prune(&vec![]);
    assert_eq!(streams(&e), vec![10, 12, 14]);
    e.prune(&vec![false, false, false, true, true]);
    assert!(e.tcp_stream.is_empty());
}

#[test]
fn tcp_read_connects_and_reads_a_line() {
    let mut e = endpoint(Protocol::TCP);
    assert_eq!(e.read_step(ReadEvent::Start), ReadAction::Connect);
    assert_eq!(e.read_step(ReadEvent::Connected(4)), ReadAction::Read(0));
    assert_eq!(
        e.read_step(ReadEvent::Line { stream: 0, line: b"!AIVDM,1\r\n".to_vec() }),
        ReadAction::Deliver(b"!AIVDM,1\r\n".to_vec())
    );
    assert_eq!(streams(&e), vec![4]);
    assert_eq!(e.read_step(ReadEvent::Start), ReadAction::Prune);
    assert_eq!(e.read_step(ReadEvent::Peers(vec![true])), ReadAction::Read(0));
    assert_eq!(e.read_step(ReadEvent::Start), ReadAction::Prune);
    assert_eq!(e.read_step(ReadEvent::Peers(vec![false])), ReadAction::Connect);
}

#[test]
fn tcp_read_end_of_stream_gives_empty_line_and_disconnects() {
    let mut e = endpoint(Protocol::TCP);
    e.read_step(ReadEvent::Connected(4));
    assert_eq!(
        e.read_step(ReadEvent::Line { stream: 0, line: Vec::new() }),
        ReadAction::Deliver(Vec::new())
    );
    assert!(e.tcp_stream.is_empty());
    assert_eq!(e.read_step(ReadEvent::Start), ReadAction::Connect);
}

#[test]
fn tcp_read_error_clears_the_streams() {
    let mut e = endpoint(Protocol::TCP);
    e.read_step(ReadEvent::Connected(4));
    assert_eq!(
        e.read_step(ReadEvent::ReadFailed { stream: 0 }),
        ReadAction::Fail(Failure::Reported)
    );
    assert!(e.tcp_stream.is_empty());
    e.read_step(ReadEvent::Connected(5));
    assert_eq!(
        e.read_step(ReadEvent::WouldBlock { stream: 0 }),
        ReadAction::Fail(Failure::Reported)
    );
    assert!(e.tcp_stream.is_empty());
    assert_eq!(
        e.read_step(ReadEvent::ConnectFailed),
        ReadAction::Fail(Failure::ConnectionRefused)
    );
    assert_eq!(e.read_step(ReadEvent::ConfigureFailed), ReadAction::Fail(Failure::Reported));
    assert_eq!(e.read_step(ReadEvent::AcceptEmpty), ReadAction::Fail(Failure::Unexpected));
    assert_eq!(e.read_step(ReadEvent::Datagram(vec![1])), ReadAction::Fail(Failure::Unexpected));
}

#[test]
fn tcp_listen_accepts_all_pending_then_reads() {
    let mut e = endpoint(Protocol::TCPListen);
    assert_eq!(e.read_step(ReadEvent::Start), ReadAction::Listen);
    assert_eq!(e.read_step(ReadEvent::Listening(1)), ReadAction::Accept);
    assert_eq!(e.tcp_listener, Some(1));
    assert_eq!(e.read_step(ReadEvent::Accepted(20)), ReadAction::Accept);
    assert_eq!(e.read_step(ReadEvent::Accepted(21)), ReadAction::Accept);
    assert_eq!(e.read_step(ReadEvent::AcceptEmpty), ReadAction::Prune);
    assert_eq!(e.read_step(ReadEvent::Peers(vec![true, true])), ReadAction::Read(0));
    assert_eq!(e.read_step(ReadEvent::WouldBlock { stream: 0 }), ReadAction::Read(1));
    assert_eq!(
        e.read_step(ReadEvent::Line { stream: 1, line: b"$GPRMC\n".to_vec() }),
        ReadAction::Deliver(b"$GPRMC\n".to_vec())
    );
    assert_eq!(streams(&e), vec![20, 21]);
    // the listener stays for the next read
    assert_eq!(e.read_step(ReadEvent::Start), ReadAction::Accept);
}

#[test]
fn tcp_listen_without_streams_has_no_data() {
    let mut e = endpoint(Protocol::TCPListen);
    e.read_step(ReadEvent::Listening(1));
    assert_eq!(e.read_step(ReadEvent::AcceptEmpty), ReadAction::Fail(Failure::NoData));
    e.read_step(ReadEvent::Accepted(20));
    assert_eq!(e.read_step(ReadEvent::Peers(vec![false])), ReadAction::Fail(Failure::NoData));
    assert!(e.tcp_stream.is_empty());
}

#[test]
fn tcp_listen_drops_stream_on_empty_read() {
    let mut e = endpoint(Protocol::TCPListen);
    for s in [20, 21, 22] {
        e.read_step(ReadEvent::Accepted(s));
    }
    // the stream that ended leaves, and the one behind it is asked under its index
    assert_eq!(
        e.read_step(ReadEvent::Line { stream: 0, line: Vec::new() }),
        ReadAction::Read(0)
    );
    assert_eq!(streams(&e), vec![21, 22]);
    assert_eq!(e.read_step(ReadEvent::WouldBlock { stream: 0 }), ReadAction::Read(1));
    assert_eq!(
        e.read_step(ReadEvent::Line { stream: 1, line: Vec::new() }),
        ReadAction::Fail(Failure::NoData)
    );
    assert_eq!(streams(&e), vec![21]);
    assert_eq!(e.read_step(ReadEvent::WouldBlock { stream: 0 }), ReadAction::Fail(Failure::NoData));
    assert_eq!(
        e.read_step(ReadEvent::Line { stream: 5, line: Vec::new() }),
        ReadAction::Fail(Failure::NoData)
    );
    assert_eq!(streams(&e), vec![21]);
}

#[test]
fn tcp_listen_read_error_drops_the_stream() {
    let mut e = endpoint(Protocol::TCPListen);
    for s in [20, 21, 22] {
        e.read_step(ReadEvent::Accepted(s));
    }
    // the stream that took the place of the failed one is asked next
    assert_eq!(e.read_step(ReadEvent::ReadFailed { stream: 0 }), ReadAction::Read(0));
    assert_eq!(streams(&e), vec![21, 22]);
    assert_eq!(
        e.read_step(ReadEvent::ReadFailed { stream: 1 }),
        ReadAction::Fail(Failure::NoData)
    );
    assert_eq!(streams(&e), vec![21]);
    // the error of the last stream is the error of the read
    assert_eq!(
        e.read_step(ReadEvent::ReadFailed { stream: 0 }),
        ReadAction::Fail(Failure::Reported)
    );
    assert!(e.tcp_stream.is_empty());
    assert_eq!(
        e.read_step(ReadEvent::ReadFailed { stream: 0 }),
        ReadAction::Fail(Failure::NoData)
    );
}

#[test]
fn tcp_listen_failures_are_told_apart() {
    let mut e = endpoint(Protocol::TCPListen);
    assert_eq!(e.read_step(ReadEvent::ListenFailed), ReadAction::Fail(Failure::AddrInUse));
    assert_eq!(e.read_step(ReadEvent::AcceptFailed), ReadAction::Fail(Failure::Reported));
    assert_eq!(e.read_step(ReadEvent::ConfigureFailed), ReadAction::Fail(Failure::Reported));
    assert_eq!(e.read_step(ReadEvent::Connected(1)), ReadAction::Fail(Failure::Unexpected));
    assert_eq!(e.read_step(ReadEvent::Bound(1)), ReadAction::Fail(Failure::Unexpected));
    assert!(e.tcp_listener.is_none());
}

#[test]
fn udp_read_binds_and_receives() {
    for p in [Protocol::UDP, Protocol::UDPListen] {
        let mut e = endpoint(p);
        assert_eq!(e.read_step(ReadEvent::Start), ReadAction::Bind);
        assert_eq!(e.read_step(ReadEvent::Bound(9)), ReadAction::Receive);
        assert_eq!(e.udp_socket, Some(9));
        assert_eq!(
            e.read_step(ReadEvent::Datagram(b"a\nb\n".to_vec())),
            ReadAction::Deliver(b"a\nb\n".to_vec())
        );
        assert_eq!(e.read_step(ReadEvent::Start), ReadAction::Receive);
        assert_eq!(e.read_step(ReadEvent::ReceiveFailed), ReadAction::Fail(Failure::Reported));
        assert_eq!(e.read_step(ReadEvent::BindFailed), ReadAction::Fail(Failure::Reported));
        assert_eq!(e.read_step(ReadEvent::Accepted(1)), ReadAction::Fail(Failure::Unexpected));
        assert_eq!(e.udp_socket, Some(9));
    }
}

#[test]
fn reader_hands_out_whole_lines() {
    let mut r = BufReaderDirectWriter::new(3u32);
    assert_eq!(r.buffered(), 0);
    assert_eq!(r.read_line(), None);
    r.fill_buf(b"!AIVDM,2,1");
    assert_eq!(r.read_line(), None);
    assert_eq!(r.buffered(), 10);
    r.fill_buf(b",x\r\n!AIVDM,2,2,y\n$GP");
    assert_eq!(r.read_line(), Some(b"!AIVDM,2,1,x\r\n".to_vec()));
    assert_eq!(r.read_line(), Some(b"!AIVDM,2,2,y\n".to_vec()));
    assert_eq!(r.read_line(), None);
    assert_eq!(r.buffered(), 3);
    assert_eq!(r.read_to_end(), b"$GP".to_vec());
    assert_eq!(r.buffered(), 0);
    assert_eq!(r.read_to_end(), Vec::<u8>::new());
    assert_eq!(*r.get_ref(), 3);
    r.fill_buf(b"\n");
    assert_eq!(r.read_line(), Some(b"\n".to_vec()));
}

#[test]
fn reader_leaves_the_stream_to_its_user() {
    let mut r = BufReaderDirectWriter::new(vec![1u8]);
    r.fill_buf(b"abc");
    r.get_mut().push(2);
    assert_eq!(r.get_ref(), &vec![1u8, 2]);
    assert_eq!(r.buffered(), 3);
    r.consume(1);
    assert_eq!(r.buffered(), 2);
    r.consume(10);
    assert_eq!(r.buffered(), 0);
    r.fill_buf(b"xy\n");
    r.consume(0);
    assert_eq!(r.read_line(), Some(b"xy\n".to_vec()));
    assert_eq!(r.into_inner(), vec![1u8, 2]);
}

#[test]
fn writer_collects_until_flushed() {
    let mut w = BufWriterDirectReader::new(3u32);
    assert_eq!(w.flush(), Vec::<u8>::new());
    assert_eq!(w.write(b"abc"), 3);
    assert_eq!(w.write(b""), 0);
    assert_eq!(w.write(b"de"), 2);
    assert_eq!(w.flush(), b"abcde".to_vec());
    assert_eq!(w.flush(), Vec::<u8>::new());
    *w.get_mut() = 4;
    assert_eq!(*w.get_ref(), 4);
}

#[test]
fn lines_are_split_at_line_feeds() {
    let none: Vec<Vec<u8>> = Vec::new();
    assert_eq!(split_lines(b""), none);
    assert_eq!(split_lines(b"abc"), vec![b"abc".to_vec()]);
    assert_eq!(split_lines(b"abc\n"), vec![b"abc".to_vec()]);
    assert_eq!(split_lines(b"abc\r\n"), vec![b"abc".to_vec()]);
    assert_eq!(split_lines(b"a\r\nb\nc"), vec![b"a".to_vec(), b"b".to_vec(), b"c".to_vec()]);
    assert_eq!(split_lines(b"a\n\nb\n"), vec![b"a".to_vec(), Vec::new(), b"b".to_vec()]);
    assert_eq!(split_lines(b"\n"), vec![Vec::<u8>::new()]);
    assert_eq!(split_lines(b"\r\n"), vec![Vec::<u8>::new()]);
}

#[test]
fn lines_keep_a_carriage_return_that_ends_nothing() {
    assert_eq!(split_lines(b"abc\r"), vec![b"abc\r".to_vec()]);
    assert_eq!(split_lines(b"a\rb\n"), vec![b"a\rb".to_vec()]);
    assert_eq!(split_lines(b"a\r\r\nb"), vec![b"a\r".to_vec(), b"b".to_vec()]);
}

#[test]
fn lines_agree_with_the_standard_library() {
    for text in ["", "a", "a\n", "a\r\n", "\n\n", "a\r", "x\r\ny\r\n\r\n", "\r", "q\n\r\nz"] {
        let expected: Vec<Vec<u8>> = text.lines().map(|l| l.as_bytes().to_vec()).collect();
        assert_eq!(split_lines(text.as_bytes()), expected);
    }
}
