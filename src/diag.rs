//! The socket-destroy request of the kernel's socket-diagnostics interface,
//! and the reading of the replies it brings.
use vstd::prelude::*;
use vstd::slice::slice_subrange;
use vstd::endian::{endianness, Endian};
use netlink_packet_core::{ErrorMessage, NetlinkHeader, NetlinkMessage, NetlinkPayload};
use netlink_packet_sock_diag::inet::{ExtensionFlags, InetRequest, SocketId, StateFlags};
use netlink_packet_sock_diag::SockDiagMessage;
use crate::endpoint::{Endpoint, IpAddress};

verus! {

/// The connection to destroy, by its two endpoints.
#[derive(Clone, Copy, Debug, PartialEq, Eq, Structural)]
pub struct KillRequest {
    pub local: Endpoint,
    pub remote: Endpoint,
}

/// Address family of IPv4.
pub const AF_INET: u8 = 2;

/// Address family of IPv6.
pub const AF_INET6: u8 = 10;

/// Netlink flags of the request: a request (1) that asks for an
/// acknowledgment (4).
pub const REQUEST_FLAGS: u16 = 5;

/// Netlink message type of a socket-destroy request.
pub const SOCK_DESTROY: u16 = 21;

/// IP protocol number of TCP.
pub const IPPROTO_TCP: u8 = 6;

/// No extended information asked for.
pub const NO_EXTENSIONS: u8 = 0;

/// Filter of TCP states that takes every state, from established (bit 1)
/// to closing (bit 11).
pub const ALL_STATES: u32 = 0xffe;

/// A cookie of all ones: the kernel finds the socket by addresses and ports
/// alone.
pub const ANY_COOKIE: u64 = 0xffff_ffff_ffff_ffff;

/// Size of a destroy request: a 16-byte message header and a 56-byte
/// inet request.
pub const DESTROY_REQUEST_LEN: usize = 72;

/// The family a request is sent under: that of its local address.
pub open spec fn family_of(a: IpAddress) -> u8 {
    match a {
        IpAddress::V4(_) => AF_INET,
        IpAddress::V6(_) => AF_INET6,
    }
}

/// The 16 address bytes of a request, as a number in network order: an IPv4
/// address takes the first four bytes and leaves the rest zero.
pub open spec fn wire_of(a: IpAddress) -> u128 {
    match a {
        IpAddress::V4(v) => (v * 0x1000000000000000000000000) as u128,
        IpAddress::V6(v) => v,
    }
}

/// Every field of a socket-diagnostics request message, as plain values.
#[derive(Clone, Copy, Debug, PartialEq, Eq, Structural)]
pub struct DiagRequest {
    pub flags: u16,
    pub message_type: u16,
    pub family: u8,
    pub protocol: u8,
    pub extensions: u8,
    pub states: u32,
    pub source_port: u16,
    pub destination_port: u16,
    /// Source address bytes, as a number in network order.
    pub source: u128,
    /// Destination address bytes, as a number in network order.
    pub destination: u128,
    pub interface_id: u32,
    /// Cookie bytes, as a number in network order.
    pub cookie: u64,
}

/// The `n` low bytes of `v`, least significant first.
pub open spec fn le_bytes(v: int, n: nat) -> Seq<u8>
    decreases n,
{
    if n == 0 {
        seq![]
    } else {
        seq![(v % 256) as u8] + le_bytes(v / 256, (n - 1) as nat)
    }
}

/// The `n` low bytes of `v`, most significant first.
pub open spec fn be_bytes(v: int, n: nat) -> Seq<u8>
    decreases n,
{
    if n == 0 {
        seq![]
    } else {
        be_bytes(v / 256, (n - 1) as nat) + seq![(v % 256) as u8]
    }
}

/// The `n` low bytes of `v` in the byte order of the machine.
pub open spec fn ne_bytes(v: int, n: nat) -> Seq<u8> {
    match endianness() {
        Endian::Little => le_bytes(v, n),
        Endian::Big => be_bytes(v, n),
    }
}

/// The message a request is written as: the netlink header (length, type,
/// flags, sequence number 0, port 0, in machine order), then family,
/// protocol, extensions, a zero pad byte, the state filter of known states
/// in machine order, and the socket identifier: ports and addresses in
/// network order, interface in machine order, cookie.
pub open spec fn request_bytes(m: DiagRequest) -> Seq<u8> {
    ne_bytes(DESTROY_REQUEST_LEN as int, 4) + ne_bytes(m.message_type as int, 2) + ne_bytes(
        m.flags as int,
        2,
    ) + ne_bytes(0, 4) + ne_bytes(0, 4) + seq![m.family, m.protocol, m.extensions, 0u8]
        + ne_bytes((m.states & ALL_STATES) as int, 4) + be_bytes(m.source_port as int, 2)
        + be_bytes(m.destination_port as int, 2) + be_bytes(m.source as int, 16) + be_bytes(
        m.destination as int,
        16,
    ) + ne_bytes(m.interface_id as int, 4) + be_bytes(m.cookie as int, 8)
}

/// Relies on netlink_packet_core's `NetlinkMessage::buffer_len` and
/// `serialize` over netlink_packet_sock_diag's `InetRequest` and `SocketId`
/// (header fields and request integers in machine order, ports big-endian,
/// addresses as 16 octets, state bits outside the known states dropped by
/// `from_bits_truncate`, every extension bit known). The buffer is
/// allocated at the length the message reports, and that length goes in
/// the header.
#[verifier::external_body]
fn encode_request(m: &DiagRequest) -> (r: Vec<u8>)
    ensures
        r@ == request_bytes(*m),
        r@.len() == DESTROY_REQUEST_LEN,
{
    let mut header = NetlinkHeader::default();
    header.flags = m.flags;
    header.message_type = m.message_type;
    let socket_id = SocketId { source_port: m.source_port, destination_port: m.destination_port, interface_id: m.interface_id,
        cookie: m.cookie.to_be_bytes(), source_address: m.source.to_be_bytes().into(), destination_address: m.destination.to_be_bytes().into() };
    let inet = InetRequest { family: m.family, protocol: m.protocol, extensions: ExtensionFlags::from_bits_truncate(m.extensions),
        states: StateFlags::from_bits_truncate(m.states), socket_id };
    let mut packet = NetlinkMessage::new(header, SockDiagMessage::InetRequest(inet).into());
    packet.header.length = packet.buffer_len() as u32;
    let mut buf = vec![0u8; packet.buffer_len()];
    packet.serialize(&mut buf[..]);
    buf
}

/// The address family for an address.
pub fn address_family(a: &IpAddress) -> (r: u8)
    ensures
        r == family_of(*a),
{
    match a {
        IpAddress::V4(_) => AF_INET,
        IpAddress::V6(_) => AF_INET6,
    }
}

/// The 16 address bytes of an address, as a number in network order.
pub fn wire_address(a: &IpAddress) -> (r: u128)
    ensures
        r == wire_of(*a),
{
    match a {
        IpAddress::V4(v) => {
            assert((*v as int) * 0x1000000000000000000000000 < 0x100000000000000000000000000000000) by (nonlinear_arith)
                requires
                    (*v as int) < 0x100000000,
            ;
            (*v as u128) * 0x1000000000000000000000000
        },
        IpAddress::V6(v) => *v,
    }
}

/// The destroy request for a connection: a TCP socket-destroy message that
/// asks for an acknowledgment, under the family of the local address, with
/// no extensions, every state, the connection's ports and addresses,
/// interface 0 and a cookie of all ones.
pub open spec fn destroy_fields(request: KillRequest) -> DiagRequest {
    DiagRequest {
        flags: REQUEST_FLAGS,
        message_type: SOCK_DESTROY,
        family: family_of(request.local.addr),
        protocol: IPPROTO_TCP,
        extensions: NO_EXTENSIONS,
        states: ALL_STATES,
        source_port: request.local.port,
        destination_port: request.remote.port,
        source: wire_of(request.local.addr),
        destination: wire_of(request.remote.addr),
        interface_id: 0,
        cookie: ANY_COOKIE,
    }
}

/// Encodes the destroy request for a connection. The buffer is exactly as
/// long as the message.
pub fn destroy_request(request: &KillRequest) -> (r: Vec<u8>)
    ensures
        r@ == request_bytes(destroy_fields(*request)),
        r@.len() == DESTROY_REQUEST_LEN,
{
    let m = DiagRequest {
        flags: REQUEST_FLAGS,
        message_type: SOCK_DESTROY,
        family: address_family(&request.local.addr),
        protocol: IPPROTO_TCP,
        extensions: NO_EXTENSIONS,
        states: ALL_STATES,
        source_port: request.local.port,
        destination_port: request.remote.port,
        source: wire_address(&request.local.addr),
        destination: wire_address(&request.remote.addr),
        interface_id: 0,
        cookie: ANY_COOKIE,
    };
    encode_request(&m)
}

/// The kinds of message the kernel answers with.
#[derive(Clone, Copy, Debug, PartialEq, Eq, Structural)]
pub enum ReplyKind {
    /// Nothing to report.
    NoOp,
    /// The state of a socket.
    Info,
    /// End of a multi-part answer.
    Done,
    /// The request was carried out.
    Ack,
    /// The request failed.
    Error,
    /// The kernel dropped messages.
    Overrun,
    /// Any other message.
    Unknown,
}

/// One decoded reply: its kind and the length its header declares.
#[derive(Clone, Copy, Debug, PartialEq, Eq, Structural)]
pub struct Reply {
    pub kind: ReplyKind,
    pub length: u32,
}

/// The length a message header declares: its first four bytes, read in the
/// byte order of the machine.
pub open spec fn declared_length(b: Seq<u8>) -> int {
    match endianness() {
        Endian::Little => b[0] + 0x100 * b[1] + 0x10000 * b[2] + 0x1000000 * b[3],
        Endian::Big => b[3] + 0x100 * b[2] + 0x10000 * b[1] + 0x1000000 * b[0],
    }
}

/// What netlink_packet_core makes of the first message in `bytes`.
pub uninterp spec fn decoded_reply(bytes: Seq<u8>) -> Option<Reply>;

/// Relies on `NetlinkMessage::<SockDiagMessage>::deserialize`, which fails
/// on fewer than 16 bytes and unless the length the header declares (read
/// in machine order) is at least the 16-byte header and at most the bytes
/// given (`NetlinkBuffer::new_checked`); that declared length is the
/// header's `length`. An error message without a code is an
/// acknowledgment.
#[verifier::external_body]
fn decode_reply(bytes: &[u8]) -> (r: Option<Reply>)
    ensures
        r == decoded_reply(bytes@),
        bytes@.len() < 16 ==> r is None,
        r matches Some(m) ==> 16 <= m.length <= bytes@.len() && m.length == declared_length(bytes@),
{
    let m = match NetlinkMessage::<SockDiagMessage>::deserialize(bytes) {
        Ok(m) => m,
        Err(_) => return None,
    };
    let kind = match m.payload {
        NetlinkPayload::Noop => ReplyKind::NoOp,
        NetlinkPayload::InnerMessage(SockDiagMessage::InetResponse(_)) => ReplyKind::Info,
        NetlinkPayload::Done(_) => ReplyKind::Done,
        NetlinkPayload::Error(ErrorMessage { code: None, .. }) => ReplyKind::Ack,
        NetlinkPayload::Error(_) => ReplyKind::Error,
        NetlinkPayload::Overrun(_) => ReplyKind::Overrun,
        _ => ReplyKind::Unknown,
    };
    Some(Reply { kind, length: m.header.length })
}

/// Where reading replies stands.
#[derive(Clone, Copy, Debug, PartialEq, Eq, Structural)]
pub enum Verdict {
    /// No answer yet: read on.
    Continue,
    /// The socket was destroyed.
    Destroyed,
    /// The request failed, or a reply could not be read.
    Failed,
}

/// The verdict one reply gives: no-op and socket-state replies leave the
/// answer open, done and acknowledgment close it with success, anything
/// else, an unreadable reply included, with failure.
pub open spec fn verdict_of(r: Option<Reply>) -> Verdict {
    match r {
        None => Verdict::Failed,
        Some(m) => match m.kind {
            ReplyKind::NoOp | ReplyKind::Info => Verdict::Continue,
            ReplyKind::Done | ReplyKind::Ack => Verdict::Destroyed,
            ReplyKind::Error | ReplyKind::Overrun | ReplyKind::Unknown => Verdict::Failed,
        },
    }
}

/// The verdict of one decoded reply.
pub fn on_reply(r: Option<Reply>) -> (v: Verdict)
    ensures
        v == verdict_of(r),
{
    match r {
        None => Verdict::Failed,
        Some(m) => match m.kind {
            ReplyKind::NoOp | ReplyKind::Info => Verdict::Continue,
            ReplyKind::Done | ReplyKind::Ack => Verdict::Destroyed,
            ReplyKind::Error | ReplyKind::Overrun | ReplyKind::Unknown => Verdict::Failed,
        },
    }
}

/// The verdict of the replies in `b` from `off` on: each message is read in
/// turn and skipped by the length its header declares; the end of the buffer leaves the
/// answer open, and a declared length of zero or past the end is a framing
/// error.
pub open spec fn drain_from(b: Seq<u8>, off: int) -> Verdict
    decreases b.len() - off,
{
    if off < 0 || off >= b.len() {
        Verdict::Continue
    } else {
        let rest = b.subrange(off, b.len() as int);
        match verdict_of(decoded_reply(rest)) {
            Verdict::Continue => {
                let len = declared_length(rest);
                if len == 0 || off + len > b.len() {
                    Verdict::Failed
                } else {
                    drain_from(b, off + len)
                }
            },
            v => v,
        }
    }
}

/// Reads the replies of one receive: `Destroyed` or `Failed` once a reply
/// settles it, `Continue` where the buffer ends first and the next receive
/// must be read.
pub fn drain(buf: &[u8]) -> (v: Verdict)
    ensures
        v == drain_from(buf@, 0),
{
    let mut off: usize = 0;
    while off < buf.len()
        invariant
            off <= buf@.len(),
            drain_from(buf@, 0) == drain_from(buf@, off as int),
        decreases buf@.len() - off,
    {
        let r = decode_reply(slice_subrange(buf, off, buf.len()));
        let v = on_reply(r);
        match v {
            Verdict::Continue => {
                let m = r.unwrap();
                off = off + m.length as usize;
            },
            _ => {
                return v;
            },
        }
    }
    Verdict::Continue
}

} // verus!
