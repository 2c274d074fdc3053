//! Captured frames, the capture filter, and decoding of frames into
//! connection records.

use vstd::prelude::*;
use etherparse::{InternetSlice, SlicedPacket, TransportSlice};
use crate::address::IpAddress;

verus! {

/// A capture timestamp: seconds and microseconds.
#[derive(Clone, Copy, Debug, PartialEq, Eq, Structural)]
pub struct Timeval {
    pub tv_sec: i64,
    pub tv_usec: i64,
}

/// What the capture facility reports of a delivered frame.
#[derive(Clone, Copy, Debug, PartialEq, Eq, Structural)]
pub struct CaptureHeader {
    /// When the frame was captured.
    pub ts: Timeval,
    /// How many bytes of it were captured.
    pub caplen: u32,
    /// Its length on the wire.
    pub len: u32,
}

/// A delivered frame: its capture header and its captured bytes.
#[derive(Debug)]
pub struct PacketOwned {
    pub capture_header: CaptureHeader,
    pub data: Vec<u8>,
}

/// The fields of a frame that identify a connection attempt.
#[derive(Clone, Copy, Debug)]
pub struct ExtractedHeaders {
    pub source_ip: IpAddress,
    pub dest_port: u16,
    pub capture_ts: Timeval,
}

/// Why a frame gave no connection record; each carries the capture time.
#[derive(Clone, Copy, Debug, PartialEq, Eq, Structural)]
pub enum UnparsedPacket {
    /// The frame decoded, but not as TCP over IPv4 or IPv6.
    NotIpTcp(Timeval),
    /// The frame did not decode as Ethernet II.
    Malformed(Timeval),
}

/// The transport layer of a decoded frame.
#[derive(Clone, Copy, Debug, PartialEq, Eq, Structural)]
pub enum TransportLayer {
    Tcp { destination_port: u16 },
    Other,
}

/// The layers of a frame, as far as they decode.
#[derive(Clone, Copy, Debug)]
pub enum FrameLayers {
    /// The bytes are not an Ethernet II frame.
    Malformed,
    /// The source address of the network layer and the transport layer,
    /// where present.
    Sliced { source: Option<IpAddress>, transport: Option<TransportLayer> },
}

/// The layers that etherparse finds in an Ethernet II frame.
pub uninterp spec fn ethernet_layers(data: Seq<u8>) -> FrameLayers;

/// Relies on etherparse's `SlicedPacket::from_ethernet`: it fails on bytes
/// that are no Ethernet II frame, else gives the IP header (whose `source`
/// is the source address) and the transport header (whose
/// `destination_port` is the TCP destination port) where present; the
/// result depends on the bytes alone.
#[verifier::external_body]
fn slice_ethernet(data: &[u8]) -> (r: FrameLayers)
    ensures
        r == ethernet_layers(data@),
{
    match SlicedPacket::from_ethernet(data) {
        Err(_) => FrameLayers::Malformed,
        Ok(p) => FrameLayers::Sliced {
            source: match p.ip {
                Some(InternetSlice::Ipv4(h, _)) => Some(IpAddress::V4(h.source())),
                Some(InternetSlice::Ipv6(h, _)) => Some(IpAddress::V6(h.source())),
                None => None,
            },
            transport: match p.transport {
                Some(TransportSlice::Tcp(t)) => Some(TransportLayer::Tcp { destination_port: t.destination_port() }),
                Some(_) => Some(TransportLayer::Other),
                None => None,
            },
        },
    }
}

/// The record of a frame with layers `layers` captured at `ts`: its source
/// address and TCP destination port when it is TCP over IP.
pub open spec fn extracted(layers: FrameLayers, ts: Timeval) -> Result<ExtractedHeaders, UnparsedPacket> {
    match layers {
        FrameLayers::Sliced { source: Some(a), transport: Some(TransportLayer::Tcp { destination_port }) } => Ok(
            ExtractedHeaders { source_ip: a, dest_port: destination_port, capture_ts: ts },
        ),
        FrameLayers::Sliced { .. } => Err(UnparsedPacket::NotIpTcp(ts)),
        FrameLayers::Malformed => Err(UnparsedPacket::Malformed(ts)),
    }
}

/// The record of a frame with layers `layers` captured at `ts`.
pub fn headers_from_layers(layers: FrameLayers, ts: Timeval) -> (r: Result<ExtractedHeaders, UnparsedPacket>)
    ensures
        r == extracted(layers, ts),
{
    match layers {
        FrameLayers::Sliced { source: Some(a), transport: Some(TransportLayer::Tcp { destination_port }) } => Ok(
            ExtractedHeaders { source_ip: a, dest_port: destination_port, capture_ts: ts },
        ),
        FrameLayers::Sliced { .. } => Err(UnparsedPacket::NotIpTcp(ts)),
        FrameLayers::Malformed => Err(UnparsedPacket::Malformed(ts)),
    }
}

impl PacketOwned {
    /// Decodes the frame into the fields of a connection record.
    pub fn headers(&self) -> (r: Result<ExtractedHeaders, UnparsedPacket>)
        ensures
            r == extracted(ethernet_layers(self.data@), self.capture_header.ts),
    {
        let layers = slice_ethernet(self.data.as_slice());
        headers_from_layers(layers, self.capture_header.ts)
    }
}

/// Turns what the capture facility delivers into owned frames.
pub struct Codec;

impl Codec {
    /// The owned frame of a delivered header and its bytes.
    pub fn decode(&mut self, header: CaptureHeader, data: &[u8]) -> (r: PacketOwned)
        ensures
            r.capture_header == header,
            r.data@ == data@,
    {
        PacketOwned { capture_header: header, data: vstd::slice::slice_to_vec(data) }
    }
}

/// The number of bytes captured of each frame: enough for the Ethernet, IP
/// and TCP headers, not for payload.
pub const SNAP_LENGTH: i32 = 96;

/// The SYN bit of the TCP flags byte.
pub const TCP_SYN: u8 = 0x02;

/// The ACK bit of the TCP flags byte.
pub const TCP_ACK: u8 = 0x10;

/// The filter expression installed on the capture: TCP segments over IPv6
/// or IPv4 whose flags have SYN set and ACK clear.
pub open spec fn filter_expression() -> Seq<char> {
    "(ip6 and proto \\tcp and ip6[40+13]&0x2 != 0 and ip6[40+13]&0x10 = 0) or (ip and tcp[tcpflags] & (tcp-syn) != 0 and tcp[tcpflags] & (tcp-ack) = 0)"@
}

/// The filter expression to install on the capture.
pub fn capture_filter() -> (r: &'static str)
    ensures
        r@ == filter_expression(),
{
    "(ip6 and proto \\tcp and ip6[40+13]&0x2 != 0 and ip6[40+13]&0x10 = 0) or (ip and tcp[tcpflags] & (tcp-syn) != 0 and tcp[tcpflags] & (tcp-ack) = 0)"
}

/// Whether the capture filter lets through a TCP segment whose flags byte
/// is `flags`: SYN set and ACK clear.
pub open spec fn filter_admits(flags: u8) -> bool {
    flags & TCP_SYN != 0 && flags & TCP_ACK == 0
}

/// Whether the capture filter lets through a TCP segment with flags `flags`.
pub fn admits(flags: u8) -> (r: bool)
    ensures
        r == filter_admits(flags),
{
    flags & TCP_SYN != 0 && flags & TCP_ACK == 0
}

/// Filter fidelity: no segment with the ACK bit set (a SYN-ACK, a bare ACK,
/// or any later segment of a connection) passes the filter, and every one
/// that passes carries SYN.
pub proof fn lemma_filter_fidelity(flags: u8)
    ensures
        flags & TCP_ACK != 0 ==> !filter_admits(flags),
        filter_admits(flags) ==> flags & TCP_SYN != 0,
        filter_admits(flags) == (flags & 0x12 == 0x02),
{
    assert((flags & 0x02 != 0 && flags & 0x10 == 0) == (flags & 0x12 == 0x02)) by (bit_vector);
}

/// Why a capture could not start.
#[derive(Clone, Copy, Debug, PartialEq, Eq, Structural)]
pub enum CaptureError {
    /// No device has the requested name.
    DeviceNotFound,
    /// The device could not be activated.
    OpenFailure,
    /// The capture facility refused the filter expression.
    FilterRejected,
}

/// The index of the first device named `wanted` among `names`.
pub fn find_device(names: &Vec<String>, wanted: &String) -> (r: Result<usize, CaptureError>)
    ensures
        r matches Ok(i) ==> i < names@.len() && names@[i as int]@ == wanted@ && forall|j: int|
            0 <= j < i ==> names@[j]@ != wanted@,
        r matches Err(e) ==> e == CaptureError::DeviceNotFound && forall|j: int|
            0 <= j < names@.len() ==> names@[j]@ != wanted@,
{
    let mut i: usize = 0;
    while i < names.len()
        invariant
            i <= names@.len(),
            forall|j: int| 0 <= j < i ==> names@[j]@ != wanted@,
        decreases names@.len() - i,
    {
        if names[i] == *wanted {
            return Ok(i);
        }
        i = i + 1;
    }
    Err(CaptureError::DeviceNotFound)
}

} // verus!
