//! Keyed anonymization of source addresses.

use vstd::prelude::*;
use vstd::string::StringSliceAdditionalSpecFns;
use blake2::digest::consts::U8;
use blake2::Blake2b;
use hmac::{Mac, SimpleHmac};
use crate::address::{IpAddress, address_bytes};
use crate::text::{lower_hex, dotted_quad, write_dotted_quad, is_lower_hex_text, lemma_lower_hex_shape};

verus! {

/// The eight-byte HMAC over BLAKE2b-64 of `message` under `key`.
pub uninterp spec fn hmac_blake2b64(key: Seq<u8>, message: Seq<u8>) -> Seq<u8>;

/// The standard textual form of sixteen IPv6 address bytes.
pub uninterp spec fn ipv6_text(b: Seq<u8>) -> Seq<u8>;

/// Relies on hmac's `SimpleHmac` over blake2's `Blake2b<U8>`: `new_from_slice`
/// accepts a key of any length (the key is hashed or padded to one block),
/// `update` feeds the message, `finalize` gives the eight-byte tag, which
/// depends on the key and the message alone.
#[verifier::external_body]
fn keyed_digest(key: &[u8], message: &[u8]) -> (r: [u8; 8])
    ensures
        r@ == hmac_blake2b64(key@, message@),
{
    let mut mac = <SimpleHmac<Blake2b<U8>> as Mac>::new_from_slice(key).expect("any key length");
    mac.update(message);
    mac.finalize().into_bytes().into()
}

/// Relies on base16ct's `lower::encode_string`: two lowercase digits per
/// byte, high nibble first.
#[verifier::external_body]
fn encode_lower_hex(b: &[u8]) -> (r: Vec<u8>)
    requires
        b@.len() <= 8,
    ensures
        r@ == lower_hex(b@),
{
    base16ct::lower::encode_string(b).into_bytes()
}

/// Relies on the `Display` of `core::net::Ipv6Addr`: the standard text of
/// an address, which depends on its bytes alone.
#[verifier::external_body]
fn format_ipv6(b: &[u8; 16]) -> (r: Vec<u8>)
    ensures
        r@ == ipv6_text(b@),
{
    core::net::Ipv6Addr::from(*b).to_string().into_bytes()
}

/// Why a configuration was refused before any capture started.
#[derive(Clone, Copy, Debug, PartialEq, Eq, Structural)]
pub enum ConfigError {
    /// The anonymization secret is empty.
    EmptySecret,
    /// A connection limit of zero was asked for.
    ZeroConnectionLimit,
    /// A time limit of zero seconds was asked for.
    ZeroTimeLimit,
}

/// How addresses appear in a report: as a keyed token, or in plain text.
pub enum Protector {
    /// A token derived from the address under a secret key.
    Keyed { key: Vec<u8> },
    /// The address's standard textual form.
    Plain,
}

/// The token of an address under `key`: sixteen lowercase hexadecimal digits
/// of its keyed digest.
pub open spec fn token_of(key: Seq<u8>, a: IpAddress) -> Seq<u8> {
    lower_hex(hmac_blake2b64(key, address_bytes(a)))
}

/// The standard textual form of an address.
pub open spec fn address_text(a: IpAddress) -> Seq<u8> {
    match a {
        IpAddress::V4(b) => dotted_quad(b@),
        IpAddress::V6(b) => ipv6_text(b@),
    }
}

impl Protector {
    /// What stands for `a` in a report.
    pub open spec fn label(&self, a: IpAddress) -> Seq<u8> {
        match self {
            Protector::Keyed { key } => token_of(key@, a),
            Protector::Plain => address_text(a),
        }
    }

    /// A protector that hides addresses behind tokens keyed by `secret`;
    /// an empty secret is refused.
    pub fn keyed(secret: &str) -> (r: Result<Protector, ConfigError>)
        ensures
            secret@.len() == 0 ==> r == Err::<Protector, ConfigError>(ConfigError::EmptySecret),
            secret@.len() > 0 ==> (r matches Ok(p) && p is Keyed && p->key@ == secret.spec_bytes()),
    {
        if secret.is_empty() {
            Err(ConfigError::EmptySecret)
        } else {
            Ok(Protector::Keyed { key: vstd::slice::slice_to_vec(secret.as_bytes()) })
        }
    }

    /// A protector that leaves addresses in plain text.
    pub fn plain() -> (r: Protector)
        ensures
            r == Protector::Plain,
    {
        Protector::Plain
    }

    /// The label of `a`: its token when keyed, else its plain text. A
    /// token is always sixteen lowercase hexadecimal digits.
    pub fn protect(&self, a: &IpAddress) -> (r: Vec<u8>)
        ensures
            r@ == self.label(*a),
            self is Keyed ==> r@.len() == 16 && is_lower_hex_text(r@),
    {
        match self {
            Protector::Keyed { key } => token(key, a),
            Protector::Plain => {
                let mut out: Vec<u8> = Vec::new();
                write_address_text(a, &mut out);
                proof {
                    assert(out@ =~= address_text(*a));
                }
                out
            },
        }
    }
}

/// The token of `a` under `key`.
fn token(key: &Vec<u8>, a: &IpAddress) -> (r: Vec<u8>)
    ensures
        r@ == token_of(key@, *a),
        r@.len() == 16,
        is_lower_hex_text(r@),
{
    let d = match a {
        IpAddress::V4(b) => keyed_digest(key.as_slice(), b.as_slice()),
        IpAddress::V6(b) => keyed_digest(key.as_slice(), b.as_slice()),
    };
    proof {
        lemma_lower_hex_shape(d@);
    }
    encode_lower_hex(d.as_slice())
}

/// Appends the standard textual form of `a` to `out`.
fn write_address_text(a: &IpAddress, out: &mut Vec<u8>)
    ensures
        final(out)@ == old(out)@ + address_text(*a),
{
    match a {
        IpAddress::V4(b) => write_dotted_quad(out, b),
        IpAddress::V6(b) => {
            let mut t = format_ipv6(b);
            out.append(&mut t);
        },
    }
}

/// Determinism of anonymization: the label of an address depends only on
/// the address and the secret, so two protectors keyed by the same secret
/// give one address the same label; a token is sixteen lowercase
/// hexadecimal digits wherever the keyed digest has its eight bytes.
pub proof fn lemma_token_deterministic(secret: Seq<u8>, a: IpAddress, keyed: Protector, other: Protector)
    requires
        keyed is Keyed && keyed->key@ == secret,
        other is Keyed && other->key@ == secret,
    ensures
        keyed.label(a) == other.label(a),
        keyed.label(a) == token_of(secret, a),
        hmac_blake2b64(secret, address_bytes(a)).len() == 8 ==> token_of(secret, a).len() == 16
            && is_lower_hex_text(token_of(secret, a)),
{
    lemma_lower_hex_shape(hmac_blake2b64(secret, address_bytes(a)));
}

} // verus!
