use pulso::capture::{CaptureHeader, Codec, Timeval, UnparsedPacket};
use pulso::address::IpAddress;
use pulso::collector::Collector;
use pulso::protect::Protector;
use pulso::report::{write_line, GroupReport, PortCount};

fn v6(n: u128) -> IpAddress {
    IpAddress::V6(n.to_be_bytes())
}

fn label(p: &Protector, a: &IpAddress) -> String {
    String::from_utf8(p.protect(a)).unwrap()
}

#[test]
fn test_digest_grouped_sorted() {
    let ip1 = v6(1);
    let ip2 = v6(2);
    let mut collector = Collector::default();
    collector.record(ip1, 123);
    collector.record(ip1, 234);
    collector.record(ip2, 345);
    collector.record(ip2, 456);
    collector.record(ip2, 456);

    let p = Protector::keyed("secret").unwrap();
    let mut out = Vec::new();
    collector.digest(&p, &mut out);

    assert_eq!(
        String::from_utf8(out).unwrap(),
        format!(
            "{}:3 456:2 345:1\n{}:2 123:1 234:1\n",
            label(&p, &ip2),
            label(&p, &ip1)
        )
    );
}

#[test]
fn conservation_of_counts() {
    let mut c = Collector::new();
    let addrs = [IpAddress::V4([10, 0, 0, 1]), IpAddress::V4([10, 0, 0, 2]), v6(7)];
    let mut n = 0u64;
    for i in 0..30u16 {
        n = c.record(addrs[(i % 3) as usize], 1000 + (i % 4));
    }
    assert_eq!(n, 30);
    assert_eq!(c.connection_count(), 30);
    let groups = c.groups();
    let total: u64 = groups.iter().map(|g| g.total).sum();
    assert_eq!(total, 30);
    for g in &groups {
        assert_eq!(g.total, g.ports.iter().map(|x| x.count).sum::<u64>());
    }
}

#[test]
fn empty_aggregate_renders_nothing() {
    let c = Collector::new();
    let mut out = b"x".to_vec();
    c.digest(&Protector::plain(), &mut out);
    assert_eq!(out, b"x".to_vec());
}

#[test]
fn equal_totals_order_by_address() {
    let mut c = Collector::new();
    c.record(v6(1), 80);
    c.record(IpAddress::V4([192, 168, 0, 9]), 80);
    c.record(IpAddress::V4([10, 0, 0, 1]), 443);
    let mut out = Vec::new();
    c.digest(&Protector::plain(), &mut out);
    assert_eq!(
        String::from_utf8(out).unwrap(),
        "10.0.0.1:1 443:1\n192.168.0.9:1 80:1\n::1:1 80:1\n"
    );
}

#[test]
fn ports_by_count_then_port() {
    let a = IpAddress::V4([1, 2, 3, 4]);
    let mut c = Collector::new();
    for port in [9000u16, 22, 9000, 80, 22, 443, 9000] {
        c.record(a, port);
    }
    let groups = c.groups();
    assert_eq!(groups.len(), 1);
    assert_eq!(groups[0].total, 7);
    let ports: Vec<(u16, u64)> = groups[0].ports.iter().map(|x| (x.port, x.count)).collect();
    assert_eq!(ports, vec![(9000, 3), (22, 2), (80, 1), (443, 1)]);
    let mut out = Vec::new();
    c.digest(&Protector::plain(), &mut out);
    assert_eq!(String::from_utf8(out).unwrap(), "1.2.3.4:7 9000:3 22:2 80:1 443:1\n");
}

#[test]
fn line_format_exact() {
    let g = GroupReport {
        source: IpAddress::V4([0, 0, 0, 0]),
        total: 18446744073709551615,
        ports: vec![PortCount { port: 65535, count: 18446744073709551614 }, PortCount { port: 0, count: 1 }],
    };
    let mut out = Vec::new();
    write_line(b"abc", &g, &mut out);
    assert_eq!(
        String::from_utf8(out).unwrap(),
        "abc:18446744073709551615 65535:18446744073709551614 0:1\n"
    );
}

#[test]
fn process_counts_only_decoded_frames() {
    let mut c = Collector::new();
    let h = CaptureHeader { ts: Timeval { tv_sec: 5, tv_usec: 6 }, caplen: 2, len: 2 };
    let r = c.process(Codec.decode(h, &[0, 1]));
    assert_eq!(r, Err(UnparsedPacket::Malformed(Timeval { tv_sec: 5, tv_usec: 6 })));
    assert_eq!(c.connection_count(), 0);
}
