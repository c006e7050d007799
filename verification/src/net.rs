//! The frames of a connection, and the address of a node on its own machine.

use crate::bytes::push_bytes;
use vstd::prelude::*;

verus! {

/// The protocol name that is negotiated on every connection.
pub const ALPN: &'static str = "vartalaap/0";

/// A number below 2^32 as four bytes, the lowest first.
pub open spec fn le32(n: int) -> Seq<u8> {
    seq![
        (n % 256) as u8,
        (n / 256 % 256) as u8,
        (n / 65536 % 256) as u8,
        (n / 16777216 % 256) as u8,
    ]
}

/// The number that four bytes stand for, the lowest first.
pub open spec fn un32(s: Seq<u8>) -> int {
    s[0] + 256 * s[1] + 65536 * s[2] + 16777216 * s[3]
}

/// Four bytes can be read back.
pub proof fn le32_round_trip(n: int)
    requires
        0 <= n < 0x1_0000_0000,
    ensures
        un32(le32(n)) == n,
{
    assert(n == n % 256 + 256 * (n / 256 % 256) + 65536 * (n / 65536 % 256) + 16777216 * (n
        / 16777216 % 256)) by (nonlinear_arith)
        requires
            0 <= n < 0x1_0000_0000,
    ;
}

/// The length that goes in front of a frame. It has four bytes, so of longer
/// frames only the rest modulo 2^32 is told.
pub fn frame_header(len: usize) -> (r: [u8; 4])
    ensures
        r@ == le32(len as int % 0x1_0000_0000),
{
    let n: u64 = len as u64 % 0x1_0000_0000;
    let r = [
        (n % 256) as u8,
        (n / 256 % 256) as u8,
        (n / 65536 % 256) as u8,
        (n / 16777216 % 256) as u8,
    ];
    assert(r@ =~= le32(n as int));
    r
}

/// The length that stands in front of a frame.
pub fn frame_len(header: &[u8; 4]) -> (r: u32)
    ensures
        r == un32(header@),
{
    header[0] as u32 + 256 * (header[1] as u32) + 65536 * (header[2] as u32) + 16777216 * (
    header[3] as u32)
}

/// A frame as it travels: the length and the data.
pub fn frame(data: &[u8]) -> (r: Vec<u8>)
    ensures
        r@ == le32(data@.len() as int % 0x1_0000_0000) + data@,
{
    let mut r: Vec<u8> = Vec::new();
    let header = frame_header(data.len());
    push_bytes(&mut r, header.as_slice());
    push_bytes(&mut r, data);
    assert(r@ =~= header@ + data@);
    r
}

/// What the receiver takes from a stream: as many bytes behind the length as it
/// says, if there are that many.
pub open spec fn received(stream: Seq<u8>) -> Option<Seq<u8>> {
    if stream.len() < 4 || stream.len() < 4 + un32(stream) {
        None
    } else {
        Some(stream.subrange(4, 4 + un32(stream)))
    }
}

/// A frame of fewer than 2^32 bytes is received as it was sent.
pub proof fn frame_round_trip(data: Seq<u8>)
    requires
        data.len() < 0x1_0000_0000,
    ensures
        received(le32(data.len() as int % 0x1_0000_0000) + data) == Some(data),
{
    let n = data.len() as int;
    le32_round_trip(n);
    let s = le32(n) + data;
    assert(un32(s) == un32(le32(n)));
    assert(s.subrange(4, 4 + n) =~= data);
}

/// The port of a socket that a node is bound to, and whether the socket is an
/// IPv4 one.
#[derive(Debug, Clone, Copy, PartialEq, Eq)]
pub struct Bound {
    pub is_ipv4: bool,
    pub port: u16,
}

/// The port under which a node can be dialled on its own machine: that of the
/// first IPv4 socket, or else of the first socket.
pub fn loopback_port(sockets: &[Bound]) -> (r: Option<u16>)
    ensures
        match r {
            Some(port) => sockets@.len() > 0 && if exists|i: int|
                0 <= i < sockets@.len() && (#[trigger] sockets@[i]).is_ipv4 {
                exists|i: int|
                    0 <= i < sockets@.len() && (#[trigger] sockets@[i]).is_ipv4 && sockets@[i].port
                        == port && forall|j: int| 0 <= j < i ==> !(#[trigger] sockets@[j]).is_ipv4
            } else {
                port == sockets@[0].port
            },
            None => sockets@.len() == 0,
        },
{
    if sockets.len() == 0 {
        return None;
    }
    let mut i: usize = 0;
    while i < sockets.len()
        invariant
            i <= sockets.len(),
            forall|j: int| 0 <= j < i ==> !(#[trigger] sockets@[j]).is_ipv4,
        decreases sockets.len() - i,
    {
        if sockets[i].is_ipv4 {
            assert(sockets@[i as int].is_ipv4);
            return Some(sockets[i].port);
        }
        i = i + 1;
    }
    Some(sockets[0].port)
}

/// What is framed is received: the header tells the length, and behind it stand
/// the bytes.
pub proof fn framed_bytes_are_received(
    data: &[u8],
    framed: Vec<u8>,
    header: [u8; 4],
    len: u32,
)
    requires
        data@.len() < 0x1_0000_0000,
        call_ensures(frame, (data,), framed),
        call_ensures(frame_header, (data.len(),), header),
        call_ensures(frame_len, (&header,), len),
    ensures
        len == data@.len(),
        framed@ == header@ + data@,
        received(framed@) == Some(data@),
{
    frame_round_trip(data@);
    le32_round_trip(data@.len() as int);
}

/// The lowest byte of a length stands first, and together they are the length.
pub proof fn lowest_byte_is_first(n: int)
    requires
        0 <= n < 0x1_0000_0000,
    ensures
        le32(n).len() == 4,
        le32(n)[0] + 256 * le32(n)[1] + 65536 * le32(n)[2] + 16777216 * le32(n)[3] == n,
        n < 256 ==> le32(n)[0] == n && le32(n)[1] == 0 && le32(n)[2] == 0 && le32(n)[3] == 0,
{
    le32_round_trip(n);
}

/// A node that listens can be dialled: on the port of an IPv4 socket where it
/// has one, and of any socket else.
pub proof fn listening_node_has_a_port(sockets: &[Bound], r: Option<u16>)
    requires
        call_ensures(loopback_port, (sockets,), r),
    ensures
        r is Some <==> sockets@.len() > 0,
        r is Some ==> exists|i: int|
            0 <= i < sockets@.len() && (#[trigger] sockets@[i]).port == r->0 && (
            sockets@[i].is_ipv4 || forall|j: int|
                0 <= j < sockets@.len() ==> !(#[trigger] sockets@[j]).is_ipv4),
{
}

} // verus!
