//! The server side of the SOCKS5 handshake of a dynamic forward: a client
//! greets with the authentication methods it offers, the server picks "no
//! authentication", and the client asks to CONNECT to an IPv4 address, a
//! domain name or an IPv6 address and a port. Only CONNECT without
//! authentication is served. The caller owns the socket: a [`Socks5`]
//! says how many bytes to read or what to write next, and is told what was
//! read.
use vstd::prelude::*;
use crate::importers::common::{decimal, u32_decimal};
use crate::text::{owned, push_str};

verus! {

/// What the handshake asks of the socket.
#[derive(Debug, PartialEq)]
pub enum SocksAction {
    /// Read exactly this many bytes and report them.
    Read(usize),
    /// Write these bytes, then report that they were written.
    Write(Vec<u8>),
    /// The handshake failed.
    Fail(String),
    /// The client asked to connect to this host and port.
    Done(SocksHost, u16),
}

/// The host a client asked for: a name or dotted IPv4 address as text, or
/// the sixteen bytes of an IPv6 address (the caller writes it in its text
/// form).
#[derive(Debug, Clone, PartialEq)]
pub enum SocksHost {
    Name(String),
    Ipv6(Vec<u8>),
}

/// Abstract host.
pub enum HostView {
    Name(Seq<char>),
    Ipv6(Seq<u8>),
}

impl View for SocksHost {
    type V = HostView;

    open spec fn view(&self) -> HostView {
        match self {
            SocksHost::Name(n) => HostView::Name(n@),
            SocksHost::Ipv6(b) => HostView::Ipv6(b@),
        }
    }
}

/// What the socket did.
#[derive(Debug)]
pub enum SocksEvent {
    /// The bytes read (as many as were asked for).
    Read(Vec<u8>),
    /// The last write went out.
    Written,
}

/// The text of UTF-8 bytes, if they are valid UTF-8.
///
/// Trusted: `String::from_utf8`, which the documentation says succeeds
/// exactly on valid UTF-8 and then holds the decoded text.
#[verifier::external_body]
fn utf8_string(b: Vec<u8>) -> (r: Option<String>)
    ensures
        r is Some == vstd::utf8::valid_utf8(b@),
        r matches Some(s) ==> s@ == vstd::utf8::decode_utf8(b@),
{
    String::from_utf8(b).ok()
}

/// Abstract socket request.
pub enum SocksActionView {
    Read(nat),
    Write(Seq<u8>),
    Fail(Seq<char>),
    Done(HostView, u16),
}

impl View for SocksAction {
    type V = SocksActionView;

    open spec fn view(&self) -> SocksActionView {
        match self {
            SocksAction::Read(n) => SocksActionView::Read(*n as nat),
            SocksAction::Write(b) => SocksActionView::Write(b@),
            SocksAction::Fail(m) => SocksActionView::Fail(m@),
            SocksAction::Done(h, p) => SocksActionView::Done(h@, *p),
        }
    }
}

/// Abstract socket event.
pub enum SocksEventView {
    Read(Seq<u8>),
    Written,
}

impl View for SocksEvent {
    type V = SocksEventView;

    open spec fn view(&self) -> SocksEventView {
        match self {
            SocksEvent::Read(b) => SocksEventView::Read(b@),
            SocksEvent::Written => SocksEventView::Written,
        }
    }
}

/// The handshake's progress.
#[derive(Debug, Clone, Copy, PartialEq, Eq, Structural)]
pub enum SocksStage {
    Start,
    /// Waiting for `[VER, NMETHODS]`.
    Head,
    /// Waiting for the offered methods.
    Methods,
    /// Waiting for the method reply to go out; `accepted` tells whether
    /// "no authentication" was offered.
    MethodReply { accepted: bool },
    /// Waiting for `[VER, CMD, RSV, ATYP]`.
    Request,
    /// Waiting for a refusal to go out; `kind` tells which.
    Refusing { kind: u8 },
    Ipv4,
    DomainLength,
    Domain,
    Ipv6,
    /// Waiting for the port.
    Port,
    Finished,
}

/// The state of a handshake: its stage and the host read so far.
pub struct SocksModel {
    pub stage: SocksStage,
    pub host: HostView,
}

/// `a.b.c.d`.
pub open spec fn ipv4_text(b: Seq<u8>) -> Seq<char> {
    decimal(b[0] as nat) + "."@ + decimal(b[1] as nat) + "."@ + decimal(b[2] as nat) + "."@ + decimal(b[3] as nat)
}

/// The refusal sent for an unsupported command (`kind` 7) or address
/// type (`kind` 8).
pub open spec fn refusal(kind: u8) -> Seq<u8> {
    seq![5u8, kind, 0u8, 1u8, 0u8, 0u8, 0u8, 0u8, 0u8, 0u8]
}

/// The error of a refusal.
pub open spec fn refusal_message(kind: u8) -> Seq<char> {
    if kind == 7 {
        "SOCKS5: only CONNECT supported"@
    } else {
        "SOCKS5: unsupported ATYP"@
    }
}

/// The bytes an event read (empty for a write report).
pub open spec fn read_bytes(e: SocksEventView) -> Seq<u8> {
    match e {
        SocksEventView::Read(b) => b,
        SocksEventView::Written => Seq::empty(),
    }
}

/// One step of the handshake.
pub open spec fn socks_step(m: SocksModel, e: SocksEventView) -> (SocksModel, SocksActionView) {
    let b = read_bytes(e);
    match m.stage {
        SocksStage::Start => (SocksModel { stage: SocksStage::Head, ..m }, SocksActionView::Read(2)),
        SocksStage::Head => if b.len() != 2 || b[0] != 5 {
            (SocksModel { stage: SocksStage::Finished, ..m }, SocksActionView::Fail("not SOCKS5"@))
        } else {
            (SocksModel { stage: SocksStage::Methods, ..m }, SocksActionView::Read(b[1] as nat))
        },
        SocksStage::Methods => if b.contains(0u8) {
            (SocksModel { stage: SocksStage::MethodReply { accepted: true }, ..m }, SocksActionView::Write(seq![5u8, 0u8]))
        } else {
            (SocksModel { stage: SocksStage::MethodReply { accepted: false }, ..m }, SocksActionView::Write(seq![5u8, 0xffu8]))
        },
        SocksStage::MethodReply { accepted } => if accepted {
            (SocksModel { stage: SocksStage::Request, ..m }, SocksActionView::Read(4))
        } else {
            (SocksModel { stage: SocksStage::Finished, ..m }, SocksActionView::Fail("SOCKS5: no acceptable auth method"@))
        },
        SocksStage::Request => if b.len() != 4 || b[0] != 5 {
            (SocksModel { stage: SocksStage::Finished, ..m }, SocksActionView::Fail("SOCKS5 request version"@))
        } else if b[1] != 1 {
            (SocksModel { stage: SocksStage::Refusing { kind: 7 }, ..m }, SocksActionView::Write(refusal(7)))
        } else if b[3] == 1 {
            (SocksModel { stage: SocksStage::Ipv4, ..m }, SocksActionView::Read(4))
        } else if b[3] == 3 {
            (SocksModel { stage: SocksStage::DomainLength, ..m }, SocksActionView::Read(1))
        } else if b[3] == 4 {
            (SocksModel { stage: SocksStage::Ipv6, ..m }, SocksActionView::Read(16))
        } else {
            (SocksModel { stage: SocksStage::Refusing { kind: 8 }, ..m }, SocksActionView::Write(refusal(8)))
        },
        SocksStage::Refusing { kind } => (
            SocksModel { stage: SocksStage::Finished, ..m },
            SocksActionView::Fail(refusal_message(kind)),
        ),
        SocksStage::Ipv4 => if b.len() != 4 {
            (SocksModel { stage: SocksStage::Finished, ..m }, SocksActionView::Fail("SOCKS5: short read"@))
        } else {
            (SocksModel { stage: SocksStage::Port, host: HostView::Name(ipv4_text(b)) }, SocksActionView::Read(2))
        },
        SocksStage::DomainLength => if b.len() != 1 {
            (SocksModel { stage: SocksStage::Finished, ..m }, SocksActionView::Fail("SOCKS5: short read"@))
        } else {
            (SocksModel { stage: SocksStage::Domain, ..m }, SocksActionView::Read(b[0] as nat))
        },
        SocksStage::Domain => if vstd::utf8::valid_utf8(b) {
            (SocksModel { stage: SocksStage::Port, host: HostView::Name(vstd::utf8::decode_utf8(b)) }, SocksActionView::Read(2))
        } else {
            (SocksModel { stage: SocksStage::Finished, ..m }, SocksActionView::Fail("SOCKS5: non-UTF8 hostname"@))
        },
        SocksStage::Ipv6 => if b.len() != 16 {
            (SocksModel { stage: SocksStage::Finished, ..m }, SocksActionView::Fail("SOCKS5: short read"@))
        } else {
            (SocksModel { stage: SocksStage::Port, host: HostView::Ipv6(b) }, SocksActionView::Read(2))
        },
        SocksStage::Port => if b.len() != 2 {
            (SocksModel { stage: SocksStage::Finished, ..m }, SocksActionView::Fail("SOCKS5: short read"@))
        } else {
            (
                SocksModel { stage: SocksStage::Finished, ..m },
                SocksActionView::Done(m.host, (b[0] as int * 256 + b[1] as int) as u16),
            )
        },
        SocksStage::Finished => (m, SocksActionView::Fail("SOCKS5: handshake over"@)),
    }
}

/// A SOCKS5 handshake in progress.
pub struct Socks5 {
    stage: SocksStage,
    host: SocksHost,
}

fn ipv4_string(b: &Vec<u8>) -> (r: String)
    requires
        b@.len() == 4,
    ensures
        r@ == ipv4_text(b@),
{
    let mut r = u32_decimal(b[0] as u32);
    push_str(&mut r, ".");
    let d1 = u32_decimal(b[1] as u32);
    push_str(&mut r, d1.as_str());
    push_str(&mut r, ".");
    let d2 = u32_decimal(b[2] as u32);
    push_str(&mut r, d2.as_str());
    push_str(&mut r, ".");
    let d3 = u32_decimal(b[3] as u32);
    push_str(&mut r, d3.as_str());
    r
}

fn has_zero(b: &Vec<u8>) -> (r: bool)
    ensures
        r == b@.contains(0u8),
{
    let mut i: usize = 0;
    while i < b.len()
        invariant
            i <= b@.len(),
            forall|j: int| 0 <= j < i ==> b@[j] != 0u8,
        decreases b.len() - i,
    {
        if b[i] == 0 {
            assert(b@[i as int] == 0u8);
            return true;
        }
        i = i + 1;
    }
    false
}

fn refusal_bytes(kind: u8) -> (r: Vec<u8>)
    ensures
        r@ == refusal(kind),
{
    let r = vec![5u8, kind, 0u8, 1u8, 0u8, 0u8, 0u8, 0u8, 0u8, 0u8];
    assert(r@ =~= refusal(kind));
    r
}

impl Socks5 {
    fn host_copy(&self) -> (r: SocksHost)
        ensures
            r@ == self.host@,
    {
        match &self.host {
            SocksHost::Name(n) => SocksHost::Name(n.clone()),
            SocksHost::Ipv6(b) => {
                let mut c: Vec<u8> = Vec::new();
                let mut i: usize = 0;
                while i < b.len()
                    invariant
                        i <= b@.len(),
                        c@ == b@.take(i as int),
                    decreases b.len() - i,
                {
                    c.push(b[i]);
                    assert(b@.take(i + 1) =~= b@.take(i as int).push(b@[i as int]));
                    i = i + 1;
                }
                assert(b@.take(i as int) =~= b@);
                SocksHost::Ipv6(c)
            },
        }
    }

    /// The handshake's state.
    pub closed spec fn model(&self) -> SocksModel {
        SocksModel { stage: self.stage, host: self.host@ }
    }

    /// A handshake about to start.
    pub fn new() -> (r: Socks5)
        ensures
            r.model().stage == SocksStage::Start,
    {
        Socks5 { stage: SocksStage::Start, host: SocksHost::Name(String::new()) }
    }

    /// The next socket request, given what the socket did last (ignored on
    /// the first call).
    pub fn step(&mut self, e: SocksEvent) -> (a: SocksAction)
        ensures
            (final(self).model(), a@) == socks_step(old(self).model(), e@),
    {
        let b: Vec<u8> = match e {
            SocksEvent::Read(b) => b,
            SocksEvent::Written => Vec::new(),
        };
        match self.stage {
            SocksStage::Start => {
                self.stage = SocksStage::Head;
                SocksAction::Read(2)
            },
            SocksStage::Head => {
                if b.len() != 2 || b[0] != 5 {
                    self.stage = SocksStage::Finished;
                    return SocksAction::Fail(owned("not SOCKS5"));
                }
                self.stage = SocksStage::Methods;
                SocksAction::Read(b[1] as usize)
            },
            SocksStage::Methods => {
                if has_zero(&b) {
                    self.stage = SocksStage::MethodReply { accepted: true };
                    let r = vec![5u8, 0u8];
                    assert(r@ =~= seq![5u8, 0u8]);
                    SocksAction::Write(r)
                } else {
                    self.stage = SocksStage::MethodReply { accepted: false };
                    let r = vec![5u8, 0xffu8];
                    assert(r@ =~= seq![5u8, 0xffu8]);
                    SocksAction::Write(r)
                }
            },
            SocksStage::MethodReply { accepted } => {
                if accepted {
                    self.stage = SocksStage::Request;
                    SocksAction::Read(4)
                } else {
                    self.stage = SocksStage::Finished;
                    SocksAction::Fail(owned("SOCKS5: no acceptable auth method"))
                }
            },
            SocksStage::Request => {
                if b.len() != 4 || b[0] != 5 {
                    self.stage = SocksStage::Finished;
                    return SocksAction::Fail(owned("SOCKS5 request version"));
                }
                if b[1] != 1 {
                    self.stage = SocksStage::Refusing { kind: 7 };
                    return SocksAction::Write(refusal_bytes(7));
                }
                if b[3] == 1 {
                    self.stage = SocksStage::Ipv4;
                    SocksAction::Read(4)
                } else if b[3] == 3 {
                    self.stage = SocksStage::DomainLength;
                    SocksAction::Read(1)
                } else if b[3] == 4 {
                    self.stage = SocksStage::Ipv6;
                    SocksAction::Read(16)
                } else {
                    self.stage = SocksStage::Refusing { kind: 8 };
                    SocksAction::Write(refusal_bytes(8))
                }
            },
            SocksStage::Refusing { kind } => {
                self.stage = SocksStage::Finished;
                if kind == 7 {
                    SocksAction::Fail(owned("SOCKS5: only CONNECT supported"))
                } else {
                    SocksAction::Fail(owned("SOCKS5: unsupported ATYP"))
                }
            },
            SocksStage::Ipv4 => {
                if b.len() != 4 {
                    self.stage = SocksStage::Finished;
                    return SocksAction::Fail(owned("SOCKS5: short read"));
                }
                self.host = SocksHost::Name(ipv4_string(&b));
                self.stage = SocksStage::Port;
                SocksAction::Read(2)
            },
            SocksStage::DomainLength => {
                if b.len() != 1 {
                    self.stage = SocksStage::Finished;
                    return SocksAction::Fail(owned("SOCKS5: short read"));
                }
                self.stage = SocksStage::Domain;
                SocksAction::Read(b[0] as usize)
            },
            SocksStage::Domain => match utf8_string(b) {
                Some(h) => {
                    self.host = SocksHost::Name(h);
                    self.stage = SocksStage::Port;
                    SocksAction::Read(2)
                },
                None => {
                    self.stage = SocksStage::Finished;
                    SocksAction::Fail(owned("SOCKS5: non-UTF8 hostname"))
                },
            },
            SocksStage::Ipv6 => {
                if b.len() != 16 {
                    self.stage = SocksStage::Finished;
                    return SocksAction::Fail(owned("SOCKS5: short read"));
                }
                self.host = SocksHost::Ipv6(b);
                self.stage = SocksStage::Port;
                SocksAction::Read(2)
            },
            SocksStage::Port => {
                if b.len() != 2 {
                    self.stage = SocksStage::Finished;
                    return SocksAction::Fail(owned("SOCKS5: short read"));
                }
                self.stage = SocksStage::Finished;
                let port: u16 = b[0] as u16 * 256 + b[1] as u16;
                SocksAction::Done(self.host_copy(), port)
            },
            SocksStage::Finished => SocksAction::Fail(owned("SOCKS5: handshake over")),
        }
    }
}

/// The server replies `[5, 0]` (no authentication) only to a greeting
/// that offered method 0, and the state from which a request is read is
/// entered only then.
pub proof fn lemma_done_needs_no_auth(m: SocksModel, e: SocksEventView)
    ensures
        socks_step(m, e).1 is Write && socks_step(m, e).1 == SocksActionView::Write(seq![5u8, 0u8]) ==> m.stage
            == SocksStage::Methods && read_bytes(e).contains(0u8),
        socks_step(m, e).0.stage == (SocksStage::MethodReply { accepted: true }) ==> read_bytes(e).contains(0u8),
{
    if m.stage == SocksStage::Request {
        let b = read_bytes(e);
        if b.len() == 4 && b[0] == 5 && b[1] != 1 {
            assert(refusal(7)[1] == 7u8);
        } else if b.len() == 4 && b[0] == 5 && b[1] == 1 && b[3] != 1 && b[3] != 3 && b[3] != 4 {
            assert(refusal(8)[1] == 8u8);
        }
    } else if m.stage == SocksStage::Methods {
        if !read_bytes(e).contains(0u8) {
            assert(seq![5u8, 0xffu8][1] != seq![5u8, 0u8][1]);
        }
    }
}

} // verus!
