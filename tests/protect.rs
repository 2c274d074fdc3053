use pulso::address::{address_precedes, same_address};
use blake2::digest::consts::U8;
use blake2::Blake2b;
use hmac::{Mac, SimpleHmac};
use pulso::address::IpAddress;
use pulso::protect::{ConfigError, Protector};

fn expected_token(secret: &str, bytes: &[u8]) -> String {
    let mut mac = <SimpleHmac<Blake2b<U8>> as Mac>::new_from_slice(secret.as_bytes()).unwrap();
    mac.update(bytes);
    let tag = mac.finalize().into_bytes();
    tag.iter().map(|b| format!("{:02x}", b)).collect()
}

#[test]
fn token_is_deterministic_lower_hex() {
    let p = Protector::keyed("PULSO").unwrap();
    let a = IpAddress::V4([127, 0, 0, 1]);
    let t1 = p.protect(&a);
    let t2 = p.protect(&a);
    assert_eq!(t1, t2);
    assert_eq!(t1.len(), 16);
    assert!(t1.iter().all(|c| c.is_ascii_digit() || (b'a'..=b'f').contains(c)));
    let q = Protector::keyed("PULSO").unwrap();
    assert_eq!(q.protect(&a), t1);
}

#[test]
fn token_is_keyed_digest_in_hex() {
    let p = Protector::keyed("s3cret").unwrap();
    let v4 = [192u8, 168, 1, 20];
    let v6 = [0x20u8, 1, 0x0d, 0xb8, 0, 0, 0, 0, 0, 0, 0, 0, 0, 0, 0, 1];
    assert_eq!(String::from_utf8(p.protect(&IpAddress::V4(v4))).unwrap(), expected_token("s3cret", &v4));
    assert_eq!(String::from_utf8(p.protect(&IpAddress::V6(v6))).unwrap(), expected_token("s3cret", &v6));
}

#[test]
fn token_depends_on_secret() {
    let a = IpAddress::V4([8, 8, 8, 8]);
    let p = Protector::keyed("one").unwrap();
    let q = Protector::keyed("two").unwrap();
    assert_ne!(p.protect(&a), q.protect(&a));
}

#[test]
fn separation_over_sampled_addresses() {
    let p = Protector::keyed("sampling secret").unwrap();
    let mut seen = std::collections::HashSet::new();
    for i in 0..2000u32 {
        let b = i.wrapping_mul(2654435761).to_be_bytes();
        assert!(seen.insert(p.protect(&IpAddress::V4(b))));
        let mut w = [0u8; 16];
        w[12..].copy_from_slice(&b);
        assert!(seen.insert(p.protect(&IpAddress::V6(w))));
    }
}

#[test]
fn empty_secret_is_refused() {
    assert!(matches!(Protector::keyed(""), Err(ConfigError::EmptySecret)));
}

#[test]
fn plain_text_addresses() {
    let p = Protector::plain();
    assert_eq!(p.protect(&IpAddress::V4([127, 0, 0, 1])), b"127.0.0.1".to_vec());
    assert_eq!(p.protect(&IpAddress::V4([255, 10, 0, 200])), b"255.10.0.200".to_vec());
    let mut v6 = [0u8; 16];
    v6[15] = 1;
    assert_eq!(p.protect(&IpAddress::V6(v6)), b"::1".to_vec());
    let doc = [0x20u8, 1, 0x0d, 0xb8, 0, 0, 0, 0, 0, 0, 0, 0, 0, 0, 0, 0x10];
    assert_eq!(p.protect(&IpAddress::V6(doc)), b"2001:db8::10".to_vec());
}

#[test]
fn address_order_and_equality() {
    let a = IpAddress::V4([10, 0, 0, 1]);
    let b = IpAddress::V4([9, 255, 255, 255]);
    let c = IpAddress::V6([0; 16]);
    assert!(address_precedes(&b, &a));
    assert!(!address_precedes(&a, &b));
    assert!(address_precedes(&a, &c));
    assert!(!address_precedes(&c, &a));
    assert!(same_address(&a, &IpAddress::V4([10, 0, 0, 1])));
    assert!(!same_address(&a, &b));
    assert!(a == IpAddress::V4([10, 0, 0, 1]));
}
