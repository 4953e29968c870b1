//! The ICMP echo packet: an 8-byte header, then the echo data.

use crate::sum::{checksum, checksum_of, lemma_stamped_verifies, stamped};
use vstd::prelude::*;

verus! {

/// ICMP packet header template
pub const ICMP_PACKET: [u8; 8] = [
    8, 0,  // 8 Echo ping request, code 0
    0, 0,  // Index 2 and 3 are for ICMP checksum
    0xde, 0xad,  // Identifier
    0, 1,  // Sequence numbers
];

/// Bytes of echo data in each ping
pub const SIZE: usize = 64;

/// Bytes of the ICMP echo header
pub const HEADER_SIZE: usize = 8;

/// Echo data size plus the ICMP header: the length of an echo on the wire
pub const PACKET_SIZE: usize = HEADER_SIZE + SIZE;

/// Bytes of the IPv4 header that a raw socket hands over before the ICMP packet
pub const IP_HEADER_SIZE: usize = 20;

/// The length of a received echo: IPv4 header, ICMP header and echo data
pub const RESPONSE_SIZE: usize = IP_HEADER_SIZE + PACKET_SIZE;

/// Where the echo data starts in a received echo
pub const DATA_START: usize = IP_HEADER_SIZE + HEADER_SIZE;

/// The identifier of the echoes that the pinger and the store send
pub const IDENTIFIER: u16 = 0xdead;

/// ICMP type of an echo request
pub const ECHO_REQUEST: u8 = 8;

/// ICMP type of an echo reply
pub const ECHO_REPLY: u8 = 0;

/// What an echo packet says, apart from its checksum.
#[derive(Clone, Copy, Debug)]
pub struct EchoPacket {
    /// ICMP type: `ECHO_REQUEST` or `ECHO_REPLY`
    pub kind: u8,
    pub identifier: u16,
    pub sequence: u16,
    pub payload: [u8; 64],
}

/// An `EchoPacket` with its payload as a sequence.
pub struct EchoView {
    pub kind: u8,
    pub identifier: u16,
    pub sequence: u16,
    pub payload: Seq<u8>,
}

impl View for EchoPacket {
    type V = EchoView;

    open spec fn view(&self) -> EchoView {
        EchoView {
            kind: self.kind,
            identifier: self.identifier,
            sequence: self.sequence,
            payload: self.payload@,
        }
    }
}

/// The 8 header bytes of an echo with code 0 and a zeroed checksum field.
/// Identifier and sequence number stand high byte first.
pub open spec fn header(kind: u8, identifier: u16, sequence: u16) -> Seq<u8> {
    seq![
        kind,
        0u8,
        0u8,
        0u8,
        (identifier / 256) as u8,
        (identifier % 256) as u8,
        (sequence / 256) as u8,
        (sequence % 256) as u8,
    ]
}

/// The bytes of an echo request on the wire: header, then payload, with the
/// checksum of both in bytes 2 and 3.
pub open spec fn echo_request(identifier: u16, sequence: u16, payload: Seq<u8>) -> Seq<u8> {
    stamped(header(ECHO_REQUEST, identifier, sequence) + payload, 2)
}

/// What `bytes` says if it is an echo packet: it has the length of one, its
/// type is echo request or echo reply, its code is 0 and its checksum
/// verifies.
pub open spec fn spec_decode(bytes: Seq<u8>) -> Option<EchoView> {
    if bytes.len() == PACKET_SIZE && (bytes[0] == ECHO_REQUEST || bytes[0] == ECHO_REPLY)
        && bytes[1] == 0 && checksum_of(bytes) == seq![0u8, 0u8] {
        Some(
            EchoView {
                kind: bytes[0],
                identifier: (bytes[4] as int * 256 + bytes[5] as int) as u16,
                sequence: (bytes[6] as int * 256 + bytes[7] as int) as u16,
                payload: bytes.subrange(HEADER_SIZE as int, PACKET_SIZE as int),
            },
        )
    } else {
        None
    }
}

/// The echo data of a received echo: all that follows the two headers.
pub open spec fn payload_of(response: Seq<u8>) -> Seq<u8> {
    response.subrange(DATA_START as int, RESPONSE_SIZE as int)
}

/// A received echo answers `packet`: behind the IPv4 header and the first four
/// bytes of the ICMP header, which hold type, code and a checksum of its own,
/// it repeats the identifier, the sequence number and the data of `packet`.
pub open spec fn echoes(response: Seq<u8>, packet: Seq<u8>) -> bool {
    response.len() == RESPONSE_SIZE && response.subrange(DATA_START - 4, RESPONSE_SIZE as int)
        == packet.subrange(4, PACKET_SIZE as int)
}

/// Assemble the echo request with the given identifier, sequence number and
/// payload.
pub fn encode(identifier: u16, sequence: u16, payload: &[u8; 64]) -> (packet: Vec<u8>)
    ensures
        packet@ == echo_request(identifier, sequence, payload@),
{
    let mut packet: Vec<u8> = Vec::with_capacity(PACKET_SIZE);
    let mut h: usize = 0;
    while h < HEADER_SIZE
        invariant
            h <= HEADER_SIZE,
            packet@ == ICMP_PACKET@.subrange(0, h as int),
        decreases HEADER_SIZE - h,
    {
        packet.push(ICMP_PACKET[h]);
        h += 1;
    }
    packet.set(4, (identifier / 256) as u8);
    packet.set(5, (identifier % 256) as u8);
    packet.set(6, (sequence / 256) as u8);
    packet.set(7, (sequence % 256) as u8);
    assert(packet@ == header(ECHO_REQUEST, identifier, sequence));
    let mut i: usize = 0;
    while i < SIZE
        invariant
            i <= SIZE,
            packet@ == header(ECHO_REQUEST, identifier, sequence) + payload@.subrange(0, i as int),
        decreases SIZE - i,
    {
        packet.push(payload[i]);
        i += 1;
    }
    assert(payload@.subrange(0, SIZE as int) == payload@);
    let ghost plain = packet@;
    let sum = checksum(packet.as_slice());
    packet.set(2, sum[0]);
    packet.set(3, sum[1]);
    assert(packet@ == stamped(plain, 2));
    packet
}

/// Read `bytes` as an echo packet.
pub fn decode(bytes: &[u8]) -> (packet: Option<EchoPacket>)
    ensures
        match packet {
            Some(p) => spec_decode(bytes@) == Some(p@),
            None => spec_decode(bytes@) is None,
        },
{
    if bytes.len() != PACKET_SIZE {
        return None;
    }
    if (bytes[0] != ECHO_REQUEST && bytes[0] != ECHO_REPLY) || bytes[1] != 0 {
        return None;
    }
    let sum = checksum(bytes);
    if sum[0] != 0 || sum[1] != 0 {
        return None;
    }
    assert(checksum_of(bytes@) == seq![0u8, 0u8]);
    let mut payload: [u8; 64] = [0; 64];
    let mut i: usize = 0;
    while i < SIZE
        invariant
            i <= SIZE,
            bytes@.len() == PACKET_SIZE,
            forall|j: int| 0 <= j < i ==> payload@[j] == bytes@[HEADER_SIZE + j],
        decreases SIZE - i,
    {
        payload[i] = bytes[HEADER_SIZE + i];
        i += 1;
    }
    assert(payload@ == bytes@.subrange(HEADER_SIZE as int, PACKET_SIZE as int));
    Some(
        EchoPacket {
            kind: bytes[0],
            identifier: bytes[4] as u16 * 256 + bytes[5] as u16,
            sequence: bytes[6] as u16 * 256 + bytes[7] as u16,
            payload,
        },
    )
}

/// The echo data that a packet carries.
pub fn extract_payload(packet: &EchoPacket) -> (payload: [u8; 64])
    ensures
        payload == packet.payload,
{
    packet.payload
}

/// The echo data of a received echo.
pub fn response_payload(response: &[u8; 92]) -> (payload: [u8; 64])
    ensures
        payload@ == payload_of(response@),
{
    let mut payload: [u8; 64] = [0; 64];
    let mut i: usize = 0;
    while i < SIZE
        invariant
            i <= SIZE,
            forall|j: int| 0 <= j < i ==> payload@[j] == response@[DATA_START + j],
        decreases SIZE - i,
    {
        payload[i] = response[DATA_START + i];
        i += 1;
    }
    assert(payload@ == payload_of(response@));
    payload
}

/// Whether two pieces of echo data hold the same bytes.
pub fn same_data(x: &[u8; 64], y: &[u8; 64]) -> (same: bool)
    ensures
        same == (x@ == y@),
{
    let mut i: usize = 0;
    while i < SIZE
        invariant
            i <= SIZE,
            forall|j: int| 0 <= j < i ==> x@[j] == y@[j],
        decreases SIZE - i,
    {
        if x[i] != y[i] {
            return false;
        }
        i += 1;
    }
    assert(x@ == y@);
    true
}

/// An echo request reads back as what it was assembled from: its checksum
/// verifies, and type, identifier, sequence number and payload are those
/// given.
pub proof fn lemma_decode_encode(identifier: u16, sequence: u16, payload: Seq<u8>)
    requires
        payload.len() == SIZE,
    ensures
        spec_decode(echo_request(identifier, sequence, payload)) == Some(
            EchoView { kind: ECHO_REQUEST, identifier, sequence, payload },
        ),
{
    let plain = header(ECHO_REQUEST, identifier, sequence) + payload;
    let wire = echo_request(identifier, sequence, payload);
    lemma_stamped_verifies(plain, 2);
    assert(wire.subrange(HEADER_SIZE as int, PACKET_SIZE as int) == payload);
    assert(wire[4] == (identifier / 256) as u8);
    assert(wire[5] == (identifier % 256) as u8);
    assert(wire[6] == (sequence / 256) as u8);
    assert(wire[7] == (sequence % 256) as u8);
}

/// The answer to an echo request carries the request's data, and before it
/// the request's identifier and sequence number, high bytes first.
pub proof fn lemma_echo_keeps(response: Seq<u8>, identifier: u16, sequence: u16, payload: Seq<u8>)
    requires
        payload.len() == SIZE,
        echoes(response, echo_request(identifier, sequence, payload)),
    ensures
        payload_of(response) == payload,
        response.subrange(DATA_START - 4, DATA_START as int) == seq![
            (identifier / 256) as u8,
            (identifier % 256) as u8,
            (sequence / 256) as u8,
            (sequence % 256) as u8,
        ],
{
    let wire = echo_request(identifier, sequence, payload);
    let tail = response.subrange(DATA_START - 4, RESPONSE_SIZE as int);
    assert(tail == wire.subrange(4, PACKET_SIZE as int));
    assert forall|j: int| 0 <= j < SIZE implies payload_of(response)[j] == payload[j] by {
        assert(payload_of(response)[j] == tail[j + 4]);
        assert(wire.subrange(4, PACKET_SIZE as int)[j + 4] == payload[j]);
    }
    assert(payload_of(response) == payload);
    let id = response.subrange(DATA_START - 4, DATA_START as int);
    assert forall|j: int| 0 <= j < 4 implies id[j] == wire[j + 4] by {
        assert(id[j] == tail[j]);
        assert(wire.subrange(4, PACKET_SIZE as int)[j] == wire[j + 4]);
    }
}

} // verus!
