//! The four ways in which an endpoint reaches its peer.

use vstd::prelude::*;
use vstd::string::StringSliceAdditionalSpecFns;

verus! {

/// Transport and direction of an endpoint, chosen by the scheme of its URL.
#[derive(Clone, Copy, Debug, PartialEq, Eq, Structural)]
pub enum Protocol {
    /// `tcp`: connect to the peer over TCP.
    TCP,
    /// `udp`: send datagrams to the peer.
    UDP,
    /// `tcp-listen`: accept TCP connections.
    TCPListen,
    /// `udp-listen`: receive datagrams.
    UDPListen,
}

/// The scheme that was offered names no protocol.
#[derive(Clone, Copy, Debug, PartialEq, Eq, Structural)]
pub struct InvalidProtocol;

pub open spec fn scheme_tcp() -> Seq<u8> {
    seq!['t' as u8, 'c' as u8, 'p' as u8]
}

pub open spec fn scheme_udp() -> Seq<u8> {
    seq!['u' as u8, 'd' as u8, 'p' as u8]
}

pub open spec fn suffix_listen() -> Seq<u8> {
    seq!['-' as u8, 'l' as u8, 'i' as u8, 's' as u8, 't' as u8, 'e' as u8, 'n' as u8]
}

impl Protocol {
    /// The URL scheme of the protocol.
    pub open spec fn scheme(self) -> Seq<u8> {
        match self {
            Protocol::TCP => scheme_tcp(),
            Protocol::UDP => scheme_udp(),
            Protocol::TCPListen => scheme_tcp() + suffix_listen(),
            Protocol::UDPListen => scheme_udp() + suffix_listen(),
        }
    }

    /// The protocol that a scheme names, if it names one.
    pub open spec fn of_scheme(scheme: Seq<u8>) -> Option<Protocol> {
        if scheme == Protocol::TCP.scheme() {
            Some(Protocol::TCP)
        } else if scheme == Protocol::UDP.scheme() {
            Some(Protocol::UDP)
        } else if scheme == Protocol::TCPListen.scheme() {
            Some(Protocol::TCPListen)
        } else if scheme == Protocol::UDPListen.scheme() {
            Some(Protocol::UDPListen)
        } else {
            None
        }
    }

    /// Whether the endpoint waits for its peers instead of reaching out.
    pub open spec fn listens(self) -> bool {
        self is TCPListen || self is UDPListen
    }

    /// Reads a scheme. Only the four schemes, in lower case, are accepted.
    pub fn from_bytes(scheme: &[u8]) -> (r: Result<Protocol, InvalidProtocol>)
        ensures
            r matches Ok(p) ==> Protocol::of_scheme(scheme@) == Some(p),
            r is Err ==> Protocol::of_scheme(scheme@) is None,
    {
        let n = scheme.len();
        if n != 3 && n != 10 {
            return Err(InvalidProtocol);
        }
        let tcp = scheme[0] == 't' as u8 && scheme[1] == 'c' as u8 && scheme[2] == 'p' as u8;
        let udp = scheme[0] == 'u' as u8 && scheme[1] == 'd' as u8 && scheme[2] == 'p' as u8;
        if !tcp && !udp {
            return Err(InvalidProtocol);
        }
        if n == 3 {
            if tcp {
                assert(scheme@ =~= Protocol::TCP.scheme());
                return Ok(Protocol::TCP);
            }
            assert(scheme@ =~= Protocol::UDP.scheme());
            return Ok(Protocol::UDP);
        }
        let listen = scheme[3] == '-' as u8 && scheme[4] == 'l' as u8 && scheme[5] == 'i' as u8
            && scheme[6] == 's' as u8 && scheme[7] == 't' as u8 && scheme[8] == 'e' as u8
            && scheme[9] == 'n' as u8;
        if !listen {
            return Err(InvalidProtocol);
        }
        if tcp {
            assert(scheme@ =~= Protocol::TCPListen.scheme());
            Ok(Protocol::TCPListen)
        } else {
            assert(scheme@ =~= Protocol::UDPListen.scheme());
            Ok(Protocol::UDPListen)
        }
    }

    /// Reads a scheme given as text.
    pub fn from_str(scheme: &str) -> (r: Result<Protocol, InvalidProtocol>)
        ensures
            r matches Ok(p) ==> Protocol::of_scheme(scheme.spec_bytes()) == Some(p),
            r is Err ==> Protocol::of_scheme(scheme.spec_bytes()) is None,
    {
        Protocol::from_bytes(scheme.as_bytes())
    }

    /// Appends the scheme of the protocol to `out`.
    pub fn push_scheme(self, out: &mut Vec<u8>)
        ensures
            final(out)@ == old(out)@ + self.scheme(),
    {
        match self {
            Protocol::TCP | Protocol::TCPListen => {
                out.push('t' as u8);
                out.push('c' as u8);
                out.push('p' as u8);
            },
            Protocol::UDP | Protocol::UDPListen => {
                out.push('u' as u8);
                out.push('d' as u8);
                out.push('p' as u8);
            },
        }
        match self {
            Protocol::TCPListen | Protocol::UDPListen => {
                out.push('-' as u8);
                out.push('l' as u8);
                out.push('i' as u8);
                out.push('s' as u8);
                out.push('t' as u8);
                out.push('e' as u8);
                out.push('n' as u8);
            },
            _ => {},
        }
        assert(final(out)@ =~= old(out)@ + self.scheme());
    }

    /// The scheme of the protocol, as bytes.
    pub fn scheme_bytes(self) -> (r: Vec<u8>)
        ensures
            r@ == self.scheme(),
    {
        let mut out: Vec<u8> = Vec::new();
        self.push_scheme(&mut out);
        assert(out@ =~= self.scheme());
        out
    }
}

/// A scheme that was written out is read back as the protocol it came from.
pub proof fn lemma_scheme_round_trip(p: Protocol)
    ensures
        Protocol::of_scheme(p.scheme()) == Some(p),
{
    assert(scheme_tcp()[0] != scheme_udp()[0]);
    assert((scheme_tcp() + suffix_listen()).len() == 10);
    assert((scheme_udp() + suffix_listen()).len() == 10);
    assert((scheme_tcp() + suffix_listen())[0] != (scheme_udp() + suffix_listen())[0]);
}

} // verus!
