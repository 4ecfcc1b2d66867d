//! Endpoints: where sentences come from and where they go.
//!
//! An endpoint is written as `<scheme>://<host>:<port>`. It holds the
//! handles of the connections that it has open, and decides what is to be
//! done next to send a payload or to read a line: connect, listen, accept,
//! read, write. The program performs each step on the operating system and
//! reports what came of it; the endpoint then names the next step, until the
//! payload is sent, a line is read, or the attempt has failed.

use vstd::prelude::*;
use crate::buffer::{BufReaderDirectWriter, Buffered};
use crate::protocol::Protocol;
use crate::text::push_bytes;

verus! {

/// Seconds of silence after which a connection to a sink is probed.
pub const KEEPALIVE_IDLE_SECS: u64 = 30;

/// Seconds between two probes of a silent connection.
pub const KEEPALIVE_INTERVAL_SECS: u64 = 30;

/// The largest datagram that is read, in bytes.
pub const DATAGRAM_LIMIT: usize = 1024;

/// Why the text of an endpoint was not accepted.
#[derive(Clone, Copy, Debug, PartialEq, Eq, Structural)]
pub enum EndpointError {
    /// The text is not of the form `<scheme>://<address>`.
    InvalidFormat,
    /// The scheme names no protocol.
    InvalidProtocol,
}

/// Whether `://` stands in `s` at position `i`.
pub open spec fn separator_at(s: Seq<u8>, i: int) -> bool {
    &&& 0 <= i
    &&& i + 3 <= s.len()
    &&& s[i] == ':' as u8
    &&& s[i + 1] == '/' as u8
    &&& s[i + 2] == '/' as u8
}

/// The position of the first `://` in `s`, or the length of `s` if it holds none.
pub open spec fn first_separator(s: Seq<u8>) -> int
    decreases s.len(),
{
    if s.len() < 3 {
        s.len() as int
    } else if separator_at(s, 0) {
        0
    } else {
        1 + first_separator(s.skip(1))
    }
}

/// A position where `://` stands (or the end) that no `://` precedes is the
/// first one.
pub proof fn lemma_first_separator_is(s: Seq<u8>, k: int)
    requires
        0 <= k <= s.len(),
        forall|j: int| 0 <= j < k ==> !separator_at(s, j),
        k < s.len() ==> separator_at(s, k),
    ensures
        first_separator(s) == k,
    decreases s.len(),
{
    if s.len() < 3 {
        if k < s.len() {
            assert(separator_at(s, k));
        }
    } else if separator_at(s, 0) {
    } else {
        let t = s.skip(1);
        assert forall|j: int| 0 <= j < k - 1 implies !separator_at(t, j) by {
            if separator_at(t, j) {
                assert(separator_at(s, j + 1));
            }
        }
        if k < s.len() {
            assert(separator_at(t, k - 1));
        }
        lemma_first_separator_is(t, k - 1);
    }
}

/// The scheme and the address of an endpoint's text: what stands before and
/// behind its `://`, if it holds exactly one.
pub open spec fn url_parts(s: Seq<u8>) -> Option<(Seq<u8>, Seq<u8>)> {
    let i = first_separator(s);
    if 0 <= i < s.len() {
        let rest = s.subrange(i + 3, s.len() as int);
        if first_separator(rest) == rest.len() {
            Some((s.subrange(0, i), rest))
        } else {
            None
        }
    } else {
        None
    }
}

/// What the text of an endpoint stands for: its protocol and the address
/// that is still to be resolved.
pub open spec fn parse_url(s: Seq<u8>) -> Result<(Protocol, Seq<u8>), EndpointError> {
    match url_parts(s) {
        None => Err(EndpointError::InvalidFormat),
        Some((scheme, address)) => match Protocol::of_scheme(scheme) {
            Some(protocol) => Ok((protocol, address)),
            None => Err(EndpointError::InvalidProtocol),
        },
    }
}

/// The text of an endpoint: `<scheme>://<address>`.
pub open spec fn url_text(protocol: Protocol, addr: Seq<u8>) -> Seq<u8> {
    protocol.scheme() + seq![':' as u8, '/' as u8, '/' as u8] + addr
}

/// The position of the first `://` at or after `from`.
fn find_separator(bytes: &[u8], from: usize) -> (k: usize)
    requires
        from <= bytes@.len(),
    ensures
        from <= k <= bytes@.len(),
        k - from == first_separator(bytes@.subrange(from as int, bytes@.len() as int)),
        k < bytes@.len() ==> k + 3 <= bytes@.len(),
{
    let n = bytes.len();
    let ghost t = bytes@.subrange(from as int, n as int);
    if n - from < 3 {
        proof {
            assert forall|j: int| 0 <= j < n - from implies !separator_at(t, j) by {}
            lemma_first_separator_is(t, n - from);
        }
        return n;
    }
    let mut k: usize = from;
    while k <= n - 3 && !(bytes[k] == ':' as u8 && bytes[k + 1] == '/' as u8 && bytes[k + 2]
        == '/' as u8)
        invariant
            n == bytes@.len(),
            n >= 3,
            t == bytes@.subrange(from as int, n as int),
            from <= k <= n,
            forall|j: int| 0 <= j < k - from ==> !separator_at(t, j),
        decreases n - k,
    {
        k = k + 1;
    }
    if k <= n - 3 {
        proof {
            assert(separator_at(t, k - from));
            lemma_first_separator_is(t, k - from);
        }
        k
    } else {
        proof {
            assert forall|j: int| 0 <= j < n - from implies !separator_at(t, j) by {}
            lemma_first_separator_is(t, n - from);
        }
        n
    }
}

/// Reads the text of an endpoint, `<scheme>://<address>`.
///
/// The text must hold `://` exactly once, and the scheme must be one of the
/// four that [`Protocol`] knows. The address is handed back as it stands, to
/// be resolved.
pub fn split_url(url: &[u8]) -> (r: Result<(Protocol, Vec<u8>), EndpointError>)
    ensures
        match parse_url(url@) {
            Ok((protocol, address)) => r matches Ok((p, a)) && p == protocol && a@ == address,
            Err(e) => r matches Err(f) && f == e,
        },
{
    let n = url.len();
    assert(url@.subrange(0, n as int) =~= url@);
    let i = find_separator(url, 0);
    if i >= n {
        return Err(EndpointError::InvalidFormat);
    }
    let j = find_separator(url, i + 3);
    if j < n {
        return Err(EndpointError::InvalidFormat);
    }
    match Protocol::from_bytes(vstd::slice::slice_subrange(url, 0, i)) {
        Ok(protocol) => {
            let mut address: Vec<u8> = Vec::new();
            push_bytes(&mut address, vstd::slice::slice_subrange(url, i + 3, n));
            assert(address@ =~= url@.subrange(i + 3, n as int));
            Ok((protocol, address))
        },
        Err(_) => Err(EndpointError::InvalidProtocol),
    }
}

/// Why a send or a read did not succeed.
#[derive(Clone, Copy, Debug, PartialEq, Eq, Structural)]
pub enum Failure {
    /// The peer could not be reached, or the connection to it broke.
    ConnectionRefused,
    /// The address to listen on could not be had.
    AddrInUse,
    /// No stream had a line to offer.
    NoData,
    /// The operating system refused a step; its own error says why.
    Reported,
    /// The event that was reported is none that this protocol asks for.
    Unexpected,
}

/// The next thing to do in order to send a payload.
#[derive(Clone, Copy, Debug, PartialEq, Eq, Structural)]
pub enum SendAction {
    /// Ask each stream for its peer, and report with [`SendEvent::Peers`]
    /// which of them still have one.
    Prune,
    /// Open a TCP connection to the address and switch on keepalive.
    Connect,
    /// Write the whole payload to the first stream and flush it.
    Write,
    /// Bind a datagram socket to any local port and connect it to the address.
    Bind,
    /// Send the payload as one datagram.
    Send,
    /// Nothing is left to do: the payload is sent, or the endpoint is no sink.
    Done,
    /// The payload was not sent.
    Fail(Failure),
}

/// What came of a step of sending.
pub enum SendEvent<S, D> {
    /// A payload is to be sent.
    Start,
    /// For each stream in order, whether its peer is still there.
    Peers(Vec<bool>),
    /// The connection stands.
    Connected(S),
    /// The connection was refused.
    ConnectFailed,
    /// The connection or the socket could not be set up as required.
    ConfigureFailed,
    /// The datagram socket is bound.
    Bound(D),
    /// No datagram socket could be bound.
    BindFailed,
    /// The payload is on its way.
    Sent,
    /// The payload could not be written or sent.
    SendFailed,
}

/// The next thing to do in order to read a line.
#[derive(Debug, PartialEq, Eq)]
pub enum ReadAction {
    /// Ask each stream for its peer, and report with [`ReadEvent::Peers`]
    /// which of them still have one.
    Prune,
    /// Open a TCP connection to the address.
    Connect,
    /// Listen on the address without blocking.
    Listen,
    /// Accept one pending connection, without blocking.
    Accept,
    /// Read one line from the stream with this index.
    Read(usize),
    /// Bind a datagram socket to the address.
    Bind,
    /// Receive one datagram.
    Receive,
    /// This was read.
    Deliver(Vec<u8>),
    /// Nothing was read.
    Fail(Failure),
}

/// What came of a step of reading.
pub enum ReadEvent<L, S, D> {
    /// A line is to be read.
    Start,
    /// For each stream in order, whether its peer is still there.
    Peers(Vec<bool>),
    /// The connection stands.
    Connected(S),
    /// The connection was refused.
    ConnectFailed,
    /// A listener, a stream or a socket could not be set up as required.
    ConfigureFailed,
    /// The listener stands.
    Listening(L),
    /// The address could not be listened on.
    ListenFailed,
    /// A connection was accepted.
    Accepted(S),
    /// No connection is pending.
    AcceptEmpty,
    /// Accepting failed.
    AcceptFailed,
    /// The stream gave this line; an empty line says that the stream has ended.
    Line { stream: usize, line: Vec<u8> },
    /// The stream has nothing to give for now.
    WouldBlock { stream: usize },
    /// Reading from the stream failed.
    ReadFailed { stream: usize },
    /// The datagram socket is bound.
    Bound(D),
    /// No datagram socket could be bound.
    BindFailed,
    /// A datagram came in.
    Datagram(Vec<u8>),
    /// Receiving failed.
    ReceiveFailed,
}

/// A place on the network and the connections that are open to it.
pub struct NetworkEndpoint<L, S, D> {
    /// How the peer is reached.
    pub protocol: Protocol,
    /// The resolved socket address, as text.
    pub addr: Vec<u8>,
    /// The listener, once the endpoint listens.
    pub tcp_listener: Option<L>,
    /// The single outgoing stream, or the incoming streams in the order in
    /// which they were accepted.
    pub tcp_stream: Vec<BufReaderDirectWriter<S>>,
    /// The datagram socket, once it is bound.
    pub udp_socket: Option<D>,
}

/// An endpoint as its contracts see it.
pub struct EndpointView<L, S, D> {
    pub protocol: Protocol,
    pub addr: Seq<u8>,
    pub listener: Option<L>,
    pub streams: Seq<Buffered<S>>,
    pub socket: Option<D>,
}

impl<L, S, D> EndpointView<L, S, D> {
    /// The same endpoint with other streams.
    pub open spec fn with_streams(self, streams: Seq<Buffered<S>>) -> Self {
        EndpointView {
            protocol: self.protocol,
            addr: self.addr,
            listener: self.listener,
            streams,
            socket: self.socket,
        }
    }

    /// The same endpoint with this listener.
    pub open spec fn with_listener(self, listener: L) -> Self {
        EndpointView {
            protocol: self.protocol,
            addr: self.addr,
            listener: Some(listener),
            streams: self.streams,
            socket: self.socket,
        }
    }

    /// The same endpoint with this datagram socket.
    pub open spec fn with_socket(self, socket: D) -> Self {
        EndpointView {
            protocol: self.protocol,
            addr: self.addr,
            listener: self.listener,
            streams: self.streams,
            socket: Some(socket),
        }
    }
}

/// A stream from which nothing was received yet.
pub open spec fn fresh<S>(stream: S) -> Buffered<S> {
    Buffered { stream, buffer: Seq::empty() }
}

/// Whether the item at position `i` stays: it does unless `alive` says at
/// that position that it is gone.
pub open spec fn keeps(alive: Seq<bool>, i: int) -> bool {
    !(0 <= i < alive.len() && !alive[i])
}

/// The items from position `from` on that stay, in their order.
pub open spec fn survivors<X>(items: Seq<X>, alive: Seq<bool>, from: int) -> Seq<X>
    decreases items.len() - from,
{
    if from < 0 || from >= items.len() {
        Seq::empty()
    } else if keeps(alive, from) {
        seq![items[from]] + survivors(items, alive, from + 1)
    } else {
        survivors(items, alive, from + 1)
    }
}

/// No more items stay than there were.
pub proof fn lemma_survivors_len<X>(items: Seq<X>, alive: Seq<bool>, from: int)
    requires
        0 <= from <= items.len(),
    ensures
        survivors(items, alive, from).len() <= items.len() - from,
    decreases items.len() - from,
{
    if from < items.len() {
        lemma_survivors_len(items, alive, from + 1);
    }
}

/// The stream to read next, or the news that none is left.
pub open spec fn next_read<L, S, D>(v: EndpointView<L, S, D>, i: int) -> ReadAction {
    if 0 <= i < v.streams.len() {
        ReadAction::Read(i as usize)
    } else {
        ReadAction::Fail(Failure::NoData)
    }
}

/// The endpoint after a step of sending, and what is to be done next.
pub open spec fn send_step_spec<L, S, D>(v: EndpointView<L, S, D>, e: SendEvent<S, D>) -> (
    EndpointView<L, S, D>,
    SendAction,
) {
    match v.protocol {
        Protocol::TCP => match e {
            SendEvent::Start => (
                v,
                if v.streams.len() == 0 {
                    SendAction::Connect
                } else {
                    SendAction::Prune
                },
            ),
            SendEvent::Peers(alive) => {
                let w = v.with_streams(survivors(v.streams, alive@, 0));
                (
                    w,
                    if w.streams.len() == 0 {
                        SendAction::Connect
                    } else {
                        SendAction::Write
                    },
                )
            },
            SendEvent::Connected(stream) => if v.streams.len() == 0 {
                (v.with_streams(seq![fresh(stream)]), SendAction::Write)
            } else {
                (v, SendAction::Write)
            },
            SendEvent::ConnectFailed => (
                v.with_streams(Seq::empty()),
                SendAction::Fail(Failure::ConnectionRefused),
            ),
            SendEvent::ConfigureFailed => (
                v.with_streams(Seq::empty()),
                SendAction::Fail(Failure::ConnectionRefused),
            ),
            SendEvent::Sent => (v, SendAction::Done),
            SendEvent::SendFailed => (
                v.with_streams(Seq::empty()),
                SendAction::Fail(Failure::ConnectionRefused),
            ),
            SendEvent::Bound(_) => (v, SendAction::Fail(Failure::Unexpected)),
            SendEvent::BindFailed => (v, SendAction::Fail(Failure::Unexpected)),
        },
        Protocol::UDP => match e {
            SendEvent::Start => (
                v,
                if v.socket is None {
                    SendAction::Bind
                } else {
                    SendAction::Send
                },
            ),
            SendEvent::Bound(socket) => (v.with_socket(socket), SendAction::Send),
            SendEvent::BindFailed => (v, SendAction::Fail(Failure::ConnectionRefused)),
            SendEvent::ConfigureFailed => (v, SendAction::Fail(Failure::Reported)),
            SendEvent::Sent => (v, SendAction::Done),
            SendEvent::SendFailed => (v, SendAction::Fail(Failure::ConnectionRefused)),
            SendEvent::Peers(_) => (v, SendAction::Fail(Failure::Unexpected)),
            SendEvent::Connected(_) => (v, SendAction::Fail(Failure::Unexpected)),
            SendEvent::ConnectFailed => (v, SendAction::Fail(Failure::Unexpected)),
        },
        Protocol::TCPListen => (v, SendAction::Done),
        Protocol::UDPListen => (v, SendAction::Done),
    }
}

/// The endpoint after a step of reading, and what is to be done next.
pub open spec fn read_step_spec<L, S, D>(v: EndpointView<L, S, D>, e: ReadEvent<L, S, D>) -> (
    EndpointView<L, S, D>,
    ReadAction,
) {
    match v.protocol {
        Protocol::TCP => match e {
            ReadEvent::Start => (
                v,
                if v.streams.len() == 0 {
                    ReadAction::Connect
                } else {
                    ReadAction::Prune
                },
            ),
            ReadEvent::Peers(alive) => {
                let w = v.with_streams(survivors(v.streams, alive@, 0));
                (
                    w,
                    if w.streams.len() == 0 {
                        ReadAction::Connect
                    } else {
                        ReadAction::Read(0)
                    },
                )
            },
            ReadEvent::Connected(stream) => if v.streams.len() == 0 {
                (v.with_streams(seq![fresh(stream)]), ReadAction::Read(0))
            } else {
                (v, ReadAction::Read(0))
            },
            ReadEvent::ConnectFailed => (v, ReadAction::Fail(Failure::ConnectionRefused)),
            ReadEvent::ConfigureFailed => (v, ReadAction::Fail(Failure::Reported)),
            ReadEvent::Line { stream, line } => if line@.len() > 0 {
                (v, ReadAction::Deliver(line))
            } else {
                (v.with_streams(Seq::empty()), ReadAction::Deliver(line))
            },
            ReadEvent::WouldBlock { stream } => (
                v.with_streams(Seq::empty()),
                ReadAction::Fail(Failure::Reported),
            ),
            ReadEvent::ReadFailed { stream } => (
                v.with_streams(Seq::empty()),
                ReadAction::Fail(Failure::Reported),
            ),
            _ => (v, ReadAction::Fail(Failure::Unexpected)),
        },
        Protocol::TCPListen => match e {
            ReadEvent::Start => (
                v,
                if v.listener is None {
                    ReadAction::Listen
                } else {
                    ReadAction::Accept
                },
            ),
            ReadEvent::Listening(listener) => (v.with_listener(listener), ReadAction::Accept),
            ReadEvent::ListenFailed => (v, ReadAction::Fail(Failure::AddrInUse)),
            ReadEvent::ConfigureFailed => (v, ReadAction::Fail(Failure::Reported)),
            ReadEvent::Accepted(stream) => (
                v.with_streams(v.streams.push(fresh(stream))),
                ReadAction::Accept,
            ),
            ReadEvent::AcceptEmpty => (
                v,
                if v.streams.len() == 0 {
                    ReadAction::Fail(Failure::NoData)
                } else {
                    ReadAction::Prune
                },
            ),
            ReadEvent::AcceptFailed => (v, ReadAction::Fail(Failure::Reported)),
            ReadEvent::Peers(alive) => {
                let w = v.with_streams(survivors(v.streams, alive@, 0));
                (w, next_read(w, 0))
            },
            ReadEvent::Line { stream, line } => if line@.len() > 0 {
                (v, ReadAction::Deliver(line))
            } else if stream < v.streams.len() {
                let w = v.with_streams(v.streams.remove(stream as int));
                (w, next_read(w, stream as int))
            } else {
                (v, ReadAction::Fail(Failure::NoData))
            },
            ReadEvent::WouldBlock { stream } => (v, next_read(v, stream + 1)),
            ReadEvent::ReadFailed { stream } => if stream < v.streams.len() {
                let w = v.with_streams(v.streams.remove(stream as int));
                if w.streams.len() == 0 {
                    (w, ReadAction::Fail(Failure::Reported))
                } else {
                    (w, next_read(w, stream as int))
                }
            } else {
                (v, ReadAction::Fail(Failure::NoData))
            },
            _ => (v, ReadAction::Fail(Failure::Unexpected)),
        },
        _ => match e {
            ReadEvent::Start => (
                v,
                if v.socket is None {
                    ReadAction::Bind
                } else {
                    ReadAction::Receive
                },
            ),
            ReadEvent::Bound(socket) => (v.with_socket(socket), ReadAction::Receive),
            ReadEvent::BindFailed => (v, ReadAction::Fail(Failure::Reported)),
            ReadEvent::Datagram(bytes) => (v, ReadAction::Deliver(bytes)),
            ReadEvent::ReceiveFailed => (v, ReadAction::Fail(Failure::Reported)),
            _ => (v, ReadAction::Fail(Failure::Unexpected)),
        },
    }
}

impl<L, S, D> View for NetworkEndpoint<L, S, D> {
    type V = EndpointView<L, S, D>;

    open spec fn view(&self) -> EndpointView<L, S, D> {
        EndpointView {
            protocol: self.protocol,
            addr: self.addr@,
            listener: self.tcp_listener,
            streams: self.tcp_stream@.map_values(|b: BufReaderDirectWriter<S>| b@),
            socket: self.udp_socket,
        }
    }
}

impl<L, S, D> NetworkEndpoint<L, S, D> {
    /// An endpoint with nothing open yet. Sockets are opened when the
    /// endpoint is first used.
    pub fn new(protocol: Protocol, addr: Vec<u8>) -> (r: Self)
        ensures
            r@.protocol == protocol,
            r@.addr == addr@,
            r@.listener is None,
            r@.streams.len() == 0,
            r@.socket is None,
    {
        NetworkEndpoint {
            protocol,
            addr,
            tcp_listener: None,
            tcp_stream: Vec::new(),
            udp_socket: None,
        }
    }

    /// The endpoint as text: `<scheme>://<resolved address>`.
    pub fn to_text(&self) -> (r: Vec<u8>)
        ensures
            r@ == url_text(self@.protocol, self@.addr),
    {
        let mut out: Vec<u8> = Vec::new();
        self.protocol.push_scheme(&mut out);
        out.push(':' as u8);
        out.push('/' as u8);
        out.push('/' as u8);
        push_bytes(&mut out, self.addr.as_slice());
        assert(out@ =~= url_text(self@.protocol, self@.addr));
        out
    }

    /// Drops the streams whose peer is gone. `alive` says for each stream
    /// in order whether its peer is still there; a stream that `alive` does
    /// not reach stays.
    pub fn prune(&mut self, alive: &Vec<bool>)
        ensures
            final(self)@ == old(self)@.with_streams(survivors(old(self)@.streams, alive@, 0)),
    {
        let ghost before = self@.streams;
        let mut i: usize = self.tcp_stream.len();
        assert(self@.streams.subrange(0, i as int) =~= self@.streams);
        while i > 0
            invariant
                i <= before.len(),
                before == old(self)@.streams,
                self@.streams =~= before.subrange(0, i as int) + survivors(before, alive@, i as int),
                self@.protocol == old(self)@.protocol,
                self@.addr == old(self)@.addr,
                self@.listener == old(self)@.listener,
                self@.socket == old(self)@.socket,
            decreases i,
        {
            i = i - 1;
            let ghost current = self@.streams;
            assert(self.tcp_stream@.len() == current.len());
            if i < alive.len() && !alive[i] {
                let _ = self.tcp_stream.remove(i);
                assert(self@.streams =~= current.remove(i as int));
            }
            assert(self@.streams =~= before.subrange(0, i as int) + survivors(
                before,
                alive@,
                i as int,
            ));
        }
        assert(self@ == old(self)@.with_streams(survivors(before, alive@, 0)));
    }

    /// Takes in what came of a step of sending and names the next step.
    ///
    /// Sending starts with [`SendEvent::Start`] and is over when the answer
    /// is [`SendAction::Done`] or [`SendAction::Fail`]. Whatever goes wrong
    /// on the way to a TCP peer (the connection, its keepalive, the write)
    /// counts as a refused connection and leaves the endpoint without
    /// streams, so that the next attempt connects anew.
    pub fn send_step(&mut self, event: SendEvent<S, D>) -> (action: SendAction)
        ensures
            final(self)@ == send_step_spec(old(self)@, event).0,
            action == send_step_spec(old(self)@, event).1,
    {
        match self.protocol {
            Protocol::TCP => match event {
                SendEvent::Start => if self.tcp_stream.len() == 0 {
                    SendAction::Connect
                } else {
                    SendAction::Prune
                },
                SendEvent::Peers(alive) => {
                    self.prune(&alive);
                    if self.tcp_stream.len() == 0 {
                        SendAction::Connect
                    } else {
                        SendAction::Write
                    }
                },
                SendEvent::Connected(stream) => {
                    if self.tcp_stream.len() == 0 {
                        self.tcp_stream.push(BufReaderDirectWriter::new(stream));
                        assert(self@.streams =~= seq![fresh(stream)]);
                    }
                    SendAction::Write
                },
                SendEvent::ConnectFailed => {
                    self.drop_streams();
                    SendAction::Fail(Failure::ConnectionRefused)
                },
                SendEvent::ConfigureFailed => {
                    self.drop_streams();
                    SendAction::Fail(Failure::ConnectionRefused)
                },
                SendEvent::Sent => SendAction::Done,
                SendEvent::SendFailed => {
                    self.drop_streams();
                    SendAction::Fail(Failure::ConnectionRefused)
                },
                SendEvent::Bound(_) => SendAction::Fail(Failure::Unexpected),
                SendEvent::BindFailed => SendAction::Fail(Failure::Unexpected),
            },
            Protocol::UDP => match event {
                SendEvent::Start => if self.udp_socket.is_none() {
                    SendAction::Bind
                } else {
                    SendAction::Send
                },
                SendEvent::Bound(socket) => {
                    self.udp_socket = Some(socket);
                    SendAction::Send
                },
                SendEvent::BindFailed => SendAction::Fail(Failure::ConnectionRefused),
                SendEvent::ConfigureFailed => SendAction::Fail(Failure::Reported),
                SendEvent::Sent => SendAction::Done,
                SendEvent::SendFailed => SendAction::Fail(Failure::ConnectionRefused),
                SendEvent::Peers(_) => SendAction::Fail(Failure::Unexpected),
                SendEvent::Connected(_) => SendAction::Fail(Failure::Unexpected),
                SendEvent::ConnectFailed => SendAction::Fail(Failure::Unexpected),
            },
            Protocol::TCPListen => SendAction::Done,
            Protocol::UDPListen => SendAction::Done,
        }
    }

    /// The stream to read next, or the news that none is left.
    fn read_from(&self, i: usize) -> (action: ReadAction)
        ensures
            action == next_read(self@, i as int),
    {
        if i < self.tcp_stream.len() {
            ReadAction::Read(i)
        } else {
            ReadAction::Fail(Failure::NoData)
        }
    }

    /// Drops the stream at position `i`.
    fn drop_stream(&mut self, i: usize)
        requires
            i < old(self)@.streams.len(),
        ensures
            final(self)@ == old(self)@.with_streams(old(self)@.streams.remove(i as int)),
    {
        let _ = self.tcp_stream.remove(i);
        assert(self@.streams =~= old(self)@.streams.remove(i as int));
    }

    /// Drops every stream.
    fn drop_streams(&mut self)
        ensures
            final(self)@ == old(self)@.with_streams(Seq::empty()),
    {
        self.tcp_stream.clear();
        assert(self@.streams =~= Seq::empty());
    }

    /// Takes in what came of a step of reading and names the next step.
    ///
    /// Reading starts with [`ReadEvent::Start`] and is over when the answer
    /// is [`ReadAction::Deliver`] or [`ReadAction::Fail`]. An outgoing
    /// connection that ended or failed is dropped, so that the next read
    /// connects anew; an incoming one that ended or failed is dropped and
    /// the streams behind it are asked, the one that took its place first.
    pub fn read_step(&mut self, event: ReadEvent<L, S, D>) -> (action: ReadAction)
        ensures
            final(self)@ == read_step_spec(old(self)@, event).0,
            action == read_step_spec(old(self)@, event).1,
    {
        match self.protocol {
            Protocol::TCP => match event {
                ReadEvent::Start => if self.tcp_stream.len() == 0 {
                    ReadAction::Connect
                } else {
                    ReadAction::Prune
                },
                ReadEvent::Peers(alive) => {
                    self.prune(&alive);
                    if self.tcp_stream.len() == 0 {
                        ReadAction::Connect
                    } else {
                        ReadAction::Read(0)
                    }
                },
                ReadEvent::Connected(stream) => {
                    if self.tcp_stream.len() == 0 {
                        self.tcp_stream.push(BufReaderDirectWriter::new(stream));
                        assert(self@.streams =~= seq![fresh(stream)]);
                    }
                    ReadAction::Read(0)
                },
                ReadEvent::ConnectFailed => ReadAction::Fail(Failure::ConnectionRefused),
                ReadEvent::ConfigureFailed => ReadAction::Fail(Failure::Reported),
                ReadEvent::Line { stream, line } => {
                    if line.len() == 0 {
                        self.drop_streams();
                    }
                    ReadAction::Deliver(line)
                },
                ReadEvent::WouldBlock { stream } => {
                    self.drop_streams();
                    ReadAction::Fail(Failure::Reported)
                },
                ReadEvent::ReadFailed { stream } => {
                    self.drop_streams();
                    ReadAction::Fail(Failure::Reported)
                },
                _ => ReadAction::Fail(Failure::Unexpected),
            },
            Protocol::TCPListen => match event {
                ReadEvent::Start => if self.tcp_listener.is_none() {
                    ReadAction::Listen
                } else {
                    ReadAction::Accept
                },
                ReadEvent::Listening(listener) => {
                    self.tcp_listener = Some(listener);
                    ReadAction::Accept
                },
                ReadEvent::ListenFailed => ReadAction::Fail(Failure::AddrInUse),
                ReadEvent::ConfigureFailed => ReadAction::Fail(Failure::Reported),
                ReadEvent::Accepted(stream) => {
                    let ghost before = self@.streams;
                    self.tcp_stream.push(BufReaderDirectWriter::new(stream));
                    assert(self@.streams =~= before.push(fresh(stream)));
                    ReadAction::Accept
                },
                ReadEvent::AcceptEmpty => if self.tcp_stream.len() == 0 {
                    ReadAction::Fail(Failure::NoData)
                } else {
                    ReadAction::Prune
                },
                ReadEvent::AcceptFailed => ReadAction::Fail(Failure::Reported),
                ReadEvent::Peers(alive) => {
                    self.prune(&alive);
                    self.read_from(0)
                },
                ReadEvent::Line { stream, line } => {
                    if line.len() > 0 {
                        ReadAction::Deliver(line)
                    } else if stream < self.tcp_stream.len() {
                        self.drop_stream(stream);
                        self.read_from(stream)
                    } else {
                        ReadAction::Fail(Failure::NoData)
                    }
                },
                ReadEvent::WouldBlock { stream } => {
                    if stream < self.tcp_stream.len() {
                        self.read_from(stream + 1)
                    } else {
                        ReadAction::Fail(Failure::NoData)
                    }
                },
                ReadEvent::ReadFailed { stream } => {
                    if stream < self.tcp_stream.len() {
                        self.drop_stream(stream);
                        if self.tcp_stream.len() == 0 {
                            ReadAction::Fail(Failure::Reported)
                        } else {
                            self.read_from(stream)
                        }
                    } else {
                        ReadAction::Fail(Failure::NoData)
                    }
                },
                _ => ReadAction::Fail(Failure::Unexpected),
            },
            _ => match event {
                ReadEvent::Start => if self.udp_socket.is_none() {
                    ReadAction::Bind
                } else {
                    ReadAction::Receive
                },
                ReadEvent::Bound(socket) => {
                    self.udp_socket = Some(socket);
                    ReadAction::Receive
                },
                ReadEvent::BindFailed => ReadAction::Fail(Failure::Reported),
                ReadEvent::Datagram(bytes) => ReadAction::Deliver(bytes),
                ReadEvent::ReceiveFailed => ReadAction::Fail(Failure::Reported),
                _ => ReadAction::Fail(Failure::Unexpected),
            },
        }
    }
}

/// The text of an endpoint is read back as the protocol and the address
/// it was made from, as long as the address holds no `://`.
pub proof fn lemma_url_round_trip(protocol: Protocol, addr: Seq<u8>)
    requires
        first_separator(addr) == addr.len(),
    ensures
        parse_url(url_text(protocol, addr)) matches Ok(parts) && parts == (protocol, addr),
{
    let scheme = protocol.scheme();
    let text = url_text(protocol, addr);
    let k = scheme.len() as int;
    assert(k == 3 || k == 10);
    assert forall|j: int| 0 <= j < k implies !separator_at(text, j) by {
        assert(text[j] == scheme[j]);
        assert(scheme[j] != ':' as u8);
    }
    assert(separator_at(text, k));
    lemma_first_separator_is(text, k);
    assert(text.subrange(k + 3, text.len() as int) =~= addr);
    assert(text.subrange(0, k) =~= scheme);
    crate::protocol::lemma_scheme_round_trip(protocol);
}

/// After a payload could not be written to a TCP sink, the sink has no
/// stream left, and the next send begins by connecting.
pub proof fn lemma_send_failure_reconnects<L, S, D>(v: EndpointView<L, S, D>)
    requires
        v.protocol == Protocol::TCP,
    ensures
        send_step_spec(v, SendEvent::<S, D>::SendFailed).0.streams.len() == 0,
        send_step_spec(
            send_step_spec(v, SendEvent::<S, D>::SendFailed).0,
            SendEvent::<S, D>::Start,
        ).1 == SendAction::Connect,
{
}

/// An endpoint that connects over TCP never has more than one stream,
/// whatever is reported to it while it sends.
pub proof fn lemma_one_stream_when_sending<L, S, D>(v: EndpointView<L, S, D>, e: SendEvent<S, D>)
    requires
        v.protocol == Protocol::TCP,
        v.streams.len() <= 1,
    ensures
        send_step_spec(v, e).0.protocol == Protocol::TCP,
        send_step_spec(v, e).0.streams.len() <= 1,
{
    if let SendEvent::Peers(alive) = e {
        lemma_survivors_len(v.streams, alive@, 0);
    }
}

/// An endpoint that connects over TCP never has more than one stream,
/// whatever is reported to it while it reads.
pub proof fn lemma_one_stream_when_reading<L, S, D>(
    v: EndpointView<L, S, D>,
    e: ReadEvent<L, S, D>,
)
    requires
        v.protocol == Protocol::TCP,
        v.streams.len() <= 1,
    ensures
        read_step_spec(v, e).0.protocol == Protocol::TCP,
        read_step_spec(v, e).0.streams.len() <= 1,
{
    if let ReadEvent::Peers(alive) = e {
        lemma_survivors_len(v.streams, alive@, 0);
    }
}

} // verus!
