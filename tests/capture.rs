use etherparse::PacketBuilder;
use pulso::address::IpAddress;
use pulso::capture::{
    admits, capture_filter, headers_from_layers, CaptureHeader, Codec, FrameLayers, Timeval,
    TransportLayer, UnparsedPacket, TCP_ACK, TCP_SYN,
};

fn ts() -> Timeval {
    Timeval { tv_sec: 1700000000, tv_usec: 42 }
}

fn hdr(len: usize) -> CaptureHeader {
    CaptureHeader { ts: ts(), caplen: len as u32, len: len as u32 }
}

#[test]
fn headers_of_ipv4_syn() {
    let mut data = Vec::new();
    PacketBuilder::ethernet2([1; 6], [2; 6])
        .ipv4([192, 0, 2, 7], [192, 0, 2, 1], 64)
        .tcp(51000, 8080, 7, 1024)
        .syn()
        .write(&mut data, &[])
        .unwrap();
    let p = Codec.decode(hdr(data.len()), &data);
    assert_eq!(p.data, data);
    let h = p.headers().unwrap();
    assert!(h.source_ip == IpAddress::V4([192, 0, 2, 7]));
    assert_eq!(h.dest_port, 8080);
    assert_eq!(h.capture_ts, ts());
}

#[test]
fn headers_of_ipv6_syn() {
    let src = [0xfe, 0x80, 0, 0, 0, 0, 0, 0, 0, 0, 0, 0, 0, 0, 0, 9];
    let mut data = Vec::new();
    PacketBuilder::ethernet2([1; 6], [2; 6])
        .ipv6(src, [0; 16], 64)
        .tcp(51000, 22, 7, 1024)
        .syn()
        .write(&mut data, &[])
        .unwrap();
    let h = Codec.decode(hdr(data.len()), &data).headers().unwrap();
    assert!(h.source_ip == IpAddress::V6(src));
    assert_eq!(h.dest_port, 22);
}

#[test]
fn udp_frame_is_not_a_record() {
    let mut data = Vec::new();
    PacketBuilder::ethernet2([1; 6], [2; 6])
        .ipv4([192, 0, 2, 7], [192, 0, 2, 1], 64)
        .udp(53, 53)
        .write(&mut data, &[1, 2, 3])
        .unwrap();
    let r = Codec.decode(hdr(data.len()), &data).headers();
    assert_eq!(r.unwrap_err(), UnparsedPacket::NotIpTcp(ts()));
}

#[test]
fn truncated_frame_is_malformed() {
    let r = Codec.decode(hdr(4), &[0, 1, 2, 3]).headers();
    assert_eq!(r.unwrap_err(), UnparsedPacket::Malformed(ts()));
}

#[test]
fn record_from_layers() {
    let a = IpAddress::V4([1, 1, 1, 1]);
    let ok = headers_from_layers(
        FrameLayers::Sliced { source: Some(a), transport: Some(TransportLayer::Tcp { destination_port: 443 }) },
        ts(),
    )
    .unwrap();
    assert!(ok.source_ip == a);
    assert_eq!(ok.dest_port, 443);
    let no_ip = headers_from_layers(
        FrameLayers::Sliced { source: None, transport: Some(TransportLayer::Tcp { destination_port: 443 }) },
        ts(),
    );
    assert_eq!(no_ip.unwrap_err(), UnparsedPacket::NotIpTcp(ts()));
    let other = headers_from_layers(
        FrameLayers::Sliced { source: Some(a), transport: Some(TransportLayer::Other) },
        ts(),
    );
    assert_eq!(other.unwrap_err(), UnparsedPacket::NotIpTcp(ts()));
    assert_eq!(headers_from_layers(FrameLayers::Malformed, ts()).unwrap_err(), UnparsedPacket::Malformed(ts()));
}

#[test]
fn filter_admits_only_bare_syn() {
    assert!(admits(TCP_SYN));
    assert!(!admits(TCP_SYN | TCP_ACK));
    assert!(!admits(TCP_ACK));
    assert!(!admits(0x18));
    assert!(!admits(0x01));
    assert!(admits(0x02 | 0x40 | 0x80));
    for f in 0..=255u8 {
        assert_eq!(admits(f), f & 0x12 == 0x02);
    }
}

#[test]
fn filter_expression_selects_syn_without_ack() {
    let f = capture_filter();
    assert!(f.contains("ip6[40+13]&0x2 != 0 and ip6[40+13]&0x10 = 0"));
    assert!(f.contains("tcp[tcpflags] & (tcp-syn) != 0 and tcp[tcpflags] & (tcp-ack) = 0"));
}
