use pulso::protect::ConfigError;
use etherparse::PacketBuilder;
use pulso::address::IpAddress;
use pulso::capture::{find_device, CaptureError, CaptureHeader, Codec, PacketOwned, Timeval};
use pulso::context::{Context, Event, FinishReason, LoopState};
use pulso::protect::Protector;

const LOCALHOST_V6: IpAddress = IpAddress::V6([0, 0, 0, 0, 0, 0, 0, 0, 0, 0, 0, 0, 0, 0, 0, 1]);
const LOCALHOST_V4: IpAddress = IpAddress::V4([127, 0, 0, 1]);

fn header(sec: i64, len: usize) -> CaptureHeader {
    CaptureHeader { ts: Timeval { tv_sec: sec, tv_usec: 0 }, caplen: len as u32, len: len as u32 }
}

fn syn_v4(src: [u8; 4], dst_port: u16, sec: i64) -> PacketOwned {
    let builder = PacketBuilder::ethernet2([0; 6], [0; 6])
        .ipv4(src, [127, 0, 0, 1], 64)
        .tcp(40000, dst_port, 1, 65535)
        .syn();
    let mut data = Vec::new();
    builder.write(&mut data, &[]).unwrap();
    Codec.decode(header(sec, data.len()), &data)
}

fn syn_v6(src: [u8; 16], dst_port: u16, sec: i64) -> PacketOwned {
    let builder = PacketBuilder::ethernet2([0; 6], [0; 6])
        .ipv6(src, src, 64)
        .tcp(40000, dst_port, 1, 65535)
        .syn();
    let mut data = Vec::new();
    builder.write(&mut data, &[]).unwrap();
    Codec.decode(header(sec, data.len()), &data)
}

fn label(p: &Protector, a: &IpAddress) -> String {
    String::from_utf8(p.protect(a)).unwrap()
}

fn report(ctx: Context, p: &Protector) -> Vec<String> {
    let mut out = Vec::new();
    ctx.finish(p, &mut out);
    String::from_utf8(out).unwrap().lines().map(|s| s.to_owned()).collect()
}

#[test]
fn test_invalid_device() {
    let names = vec!["lo".to_string(), "eth0".to_string()];
    assert_eq!(find_device(&names, &"kungfu".to_string()), Err(CaptureError::DeviceNotFound));
    assert_eq!(find_device(&names, &"eth0".to_string()), Ok(1));
}

#[test]
fn test_connection_limit_ipv6() {
    let p = Protector::keyed("test secret").unwrap();
    let mut ctx = Context::new("lo", Some(2), None).unwrap();
    assert_eq!(ctx.handle(Event::Frame(syn_v6([0, 0, 0, 0, 0, 0, 0, 0, 0, 0, 0, 0, 0, 0, 0, 1], 12345, 1))), LoopState::Running);
    assert_eq!(
        ctx.handle(Event::Frame(syn_v6([0, 0, 0, 0, 0, 0, 0, 0, 0, 0, 0, 0, 0, 0, 0, 1], 23456, 2))),
        LoopState::Finished(FinishReason::ConnectionLimitReached)
    );
    let expected = format!("{}:2 12345:1 23456:1", label(&p, &LOCALHOST_V6));
    assert_eq!(report(ctx, &p), vec![expected]);
}

#[test]
fn test_connection_limit_ipv4() {
    let p = Protector::keyed("test secret").unwrap();
    let mut ctx = Context::new("lo", Some(2), None).unwrap();
    assert_eq!(ctx.handle(Event::Frame(syn_v4([127, 0, 0, 1], 12345, 1))), LoopState::Running);
    assert_eq!(
        ctx.handle(Event::Frame(syn_v4([127, 0, 0, 1], 23456, 2))),
        LoopState::Finished(FinishReason::ConnectionLimitReached)
    );
    let expected = format!("{}:2 12345:1 23456:1", label(&p, &LOCALHOST_V4));
    assert_eq!(report(ctx, &p), vec![expected]);
}

#[test]
fn test_time_limit() {
    let p = Protector::keyed("test secret").unwrap();
    let mut ctx = Context::new("lo", None, Some(1)).unwrap();
    assert_eq!(ctx.time_limit(), Some(1));
    assert_eq!(ctx.handle(Event::DeadlineElapsed), LoopState::Finished(FinishReason::TimeLimitReached));
    assert!(report(ctx, &p).is_empty());
}

#[test]
fn basic_count_with_limit_on_one_port() {
    let p = Protector::keyed("test secret").unwrap();
    let mut ctx = Context::new("lo", Some(2), None).unwrap();
    assert_eq!(ctx.handle(Event::Frame(syn_v4([127, 0, 0, 1], 12345, 1))), LoopState::Running);
    assert_eq!(
        ctx.handle(Event::Frame(syn_v4([127, 0, 0, 1], 12345, 2))),
        LoopState::Finished(FinishReason::ConnectionLimitReached)
    );
    let expected = format!("{}:2 12345:2", label(&p, &LOCALHOST_V4));
    assert_eq!(report(ctx, &p), vec![expected]);
}

#[test]
fn finished_run_ignores_later_frames() {
    let p = Protector::plain();
    let mut ctx = Context::new("lo", Some(1), None).unwrap();
    assert_eq!(
        ctx.handle(Event::Frame(syn_v4([10, 0, 0, 7], 80, 1))),
        LoopState::Finished(FinishReason::ConnectionLimitReached)
    );
    assert_eq!(
        ctx.handle(Event::Frame(syn_v4([10, 0, 0, 7], 80, 2))),
        LoopState::Finished(FinishReason::ConnectionLimitReached)
    );
    assert_eq!(ctx.connection_count(), 1);
    assert_eq!(report(ctx, &p), vec!["10.0.0.7:1 80:1".to_string()]);
}

#[test]
fn capture_errors_and_bad_frames_change_nothing() {
    let mut ctx = Context::new("lo", None, None).unwrap();
    assert_eq!(ctx.handle(Event::CaptureFailed), LoopState::Running);
    let junk = Codec.decode(header(3, 3), &[1, 2, 3]);
    assert_eq!(ctx.handle(Event::Frame(junk)), LoopState::Running);
    assert_eq!(ctx.connection_count(), 0);
    assert_eq!(ctx.handle(Event::StreamClosed), LoopState::Finished(FinishReason::StreamClosed));
    assert!(report(ctx, &Protector::plain()).is_empty());
}

#[test]
fn zero_limits_are_refused() {
    assert!(matches!(Context::new("lo", Some(0), None), Err(ConfigError::ZeroConnectionLimit)));
    assert!(matches!(Context::new("lo", None, Some(0)), Err(ConfigError::ZeroTimeLimit)));
    let ctx = Context::new("lo", Some(3), Some(5)).unwrap();
    assert_eq!(ctx.device_name(), "lo");
    assert_eq!(ctx.connection_limit(), Some(3));
}

#[test]
fn multi_port_grouping_ipv6_plain() {
    let mut ctx = Context::new("lo", None, None).unwrap();
    ctx.handle(Event::Frame(syn_v6([0, 0, 0, 0, 0, 0, 0, 0, 0, 0, 0, 0, 0, 0, 0, 1], 23456, 1)));
    ctx.handle(Event::Frame(syn_v6([0, 0, 0, 0, 0, 0, 0, 0, 0, 0, 0, 0, 0, 0, 0, 1], 12345, 2)));
    assert_eq!(report(ctx, &Protector::plain()), vec!["::1:2 12345:1 23456:1".to_string()]);
}
