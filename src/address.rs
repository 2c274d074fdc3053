//! Source addresses of connection attempts.

use vstd::prelude::*;

verus! {

/// A source address, held as its raw bytes in network order.
#[derive(Clone, Copy, Debug, Eq, Hash)]
pub enum IpAddress {
    V6([u8; 16]),
    V4([u8; 4]),
}

impl PartialEq for IpAddress {
    fn eq(&self, other: &IpAddress) -> (r: bool) {
        same_address(self, other)
    }
}

impl vstd::std_specs::cmp::PartialEqSpecImpl for IpAddress {
    open spec fn obeys_eq_spec() -> bool {
        true
    }

    open spec fn eq_spec(&self, other: &IpAddress) -> bool {
        *self == *other
    }
}

/// The value of a big-endian sequence of bytes.
pub open spec fn be_value(s: Seq<u8>) -> nat
    decreases s.len(),
{
    if s.len() == 0 {
        0
    } else {
        be_value(s.drop_last()) * 256 + s.last() as nat
    }
}

/// `256` raised to `n`.
pub open spec fn pow256(n: nat) -> nat
    decreases n,
{
    if n == 0 {
        1
    } else {
        256 * pow256((n - 1) as nat)
    }
}

/// Addresses of the first family occupy the ranks below this bound.
pub open spec fn v6_rank_base() -> nat {
    pow256(4)
}

/// The position of an address in the order of reports: IPv4 before IPv6,
/// then by the numeric value of the raw bytes.
pub open spec fn rank(a: IpAddress) -> nat {
    match a {
        IpAddress::V4(b) => be_value(b@),
        IpAddress::V6(b) => v6_rank_base() + be_value(b@),
    }
}

/// The raw bytes of an address: four or sixteen.
pub open spec fn address_bytes(a: IpAddress) -> Seq<u8> {
    match a {
        IpAddress::V4(b) => b@,
        IpAddress::V6(b) => b@,
    }
}

proof fn lemma_be_step(s: Seq<u8>, i: int)
    requires
        0 <= i < s.len(),
    ensures
        be_value(s.take(i + 1)) == be_value(s.take(i)) * 256 + s[i],
{
    assert(s.take(i + 1).drop_last() =~= s.take(i));
}

proof fn lemma_be_bound(s: Seq<u8>)
    ensures
        be_value(s) < pow256(s.len()),
    decreases s.len(),
{
    if s.len() > 0 {
        let p = s.drop_last();
        lemma_be_bound(p);
        let x = be_value(p);
        let q = pow256(p.len());
        let d = s.last();
        assert(x * 256 + d < q * 256) by (nonlinear_arith)
            requires
                x < q,
                d < 256,
        ;
    }
}

/// The big-endian value of a group of bytes.
fn be_bytes_value(b: &[u8]) -> (r: u128)
    requires
        b@.len() <= 16,
    ensures
        r == be_value(b@),
{
    let mut v: u128 = 0;
    let mut i: usize = 0;
    while i < b.len()
        invariant
            i <= b@.len() <= 16,
            v == be_value(b@.take(i as int)),
        decreases b@.len() - i,
    {
        proof {
            lemma_be_step(b@, i as int);
            lemma_be_bound(b@.take(i as int + 1));
            lemma_pow256_monotone(i as nat + 1, 16);
            lemma_pow256_16();
            assert(b@.take(i as int + 1).len() == i + 1);
        }
        v = v * 256 + b[i] as u128;
        i = i + 1;
    }
    assert(b@.take(i as int) =~= b@);
    v
}

proof fn lemma_pow256_16()
    ensures
        pow256(4) == 0x1_0000_0000,
        pow256(16) == 0x1_0000_0000_0000_0000_0000_0000_0000_0000,
{
    assert(pow256(0) == 1);
    assert(pow256(1) == 256);
    assert(pow256(2) == 65536);
    assert(pow256(3) == 16777216);
    assert(pow256(4) == 4294967296);
    assert(pow256(5) == 1099511627776);
    assert(pow256(6) == 281474976710656);
    assert(pow256(7) == 72057594037927936);
    assert(pow256(8) == 18446744073709551616);
    assert(pow256(9) == 4722366482869645213696);
    assert(pow256(10) == 1208925819614629174706176);
    assert(pow256(11) == 309485009821345068724781056);
    assert(pow256(12) == 79228162514264337593543950336);
    assert(pow256(13) == 20282409603651670423947251286016);
    assert(pow256(14) == 5192296858534827628530496329220096);
    assert(pow256(15) == 1329227995784915872903807060280344576);
    assert(pow256(16) == 340282366920938463463374607431768211456);
}

proof fn lemma_pow256_monotone(m: nat, n: nat)
    requires
        m <= n,
    ensures
        pow256(m) <= pow256(n),
    decreases n,
{
    if m < n {
        lemma_pow256_monotone(m, (n - 1) as nat);
    }
}

/// Whether `a` comes before `b` in the order of reports.
pub fn address_precedes(a: &IpAddress, b: &IpAddress) -> (r: bool)
    ensures
        r == (rank(*a) < rank(*b)),
{
    match (a, b) {
        (IpAddress::V4(x), IpAddress::V4(y)) => be_bytes_value(x) < be_bytes_value(y),
        (IpAddress::V6(x), IpAddress::V6(y)) => be_bytes_value(x) < be_bytes_value(y),
        (IpAddress::V4(x), IpAddress::V6(_)) => {
            proof {
                lemma_be_bound(x@);
            }
            true
        },
        (IpAddress::V6(_), IpAddress::V4(y)) => {
            proof {
                lemma_be_bound(y@);
            }
            false
        },
    }
}

fn same_bytes(x: &[u8], y: &[u8]) -> (r: bool)
    requires
        x@.len() == y@.len(),
    ensures
        r == (x@ == y@),
{
    let mut i: usize = 0;
    while i < x.len()
        invariant
            i <= x@.len() == y@.len(),
            x@.take(i as int) == y@.take(i as int),
        decreases x@.len() - i,
    {
        if x[i] != y[i] {
            assert(x@[i as int] != y@[i as int]);
            return false;
        }
        assert(x@.take(i as int + 1) =~= x@.take(i as int).push(x@[i as int]));
        assert(y@.take(i as int + 1) =~= y@.take(i as int).push(y@[i as int]));
        i = i + 1;
    }
    assert(x@.take(i as int) =~= x@);
    assert(y@.take(i as int) =~= y@);
    true
}

/// Whether two addresses are the same: same family and same bytes.
pub fn same_address(a: &IpAddress, b: &IpAddress) -> (r: bool)
    ensures
        r == (*a == *b),
{
    match (a, b) {
        (IpAddress::V4(x), IpAddress::V4(y)) => {
            let r = same_bytes(x, y);
            proof {
                if r {
                    assert(*x =~= *y);
                }
            }
            r
        },
        (IpAddress::V6(x), IpAddress::V6(y)) => {
            let r = same_bytes(x, y);
            proof {
                if r {
                    assert(*x =~= *y);
                }
            }
            r
        },
        _ => false,
    }
}

proof fn lemma_be_injective(s: Seq<u8>, t: Seq<u8>)
    requires
        s.len() == t.len(),
        be_value(s) == be_value(t),
    ensures
        s == t,
    decreases s.len(),
{
    if s.len() > 0 {
        let x = be_value(s.drop_last());
        let y = be_value(t.drop_last());
        let d = s.last() as int;
        let e = t.last() as int;
        assert(x == y && d == e) by (nonlinear_arith)
            requires
                x * 256 + d == y * 256 + e,
                0 <= d < 256,
                0 <= e < 256,
                x >= 0,
                y >= 0,
        ;
        lemma_be_injective(s.drop_last(), t.drop_last());
        assert(s =~= t.drop_last().push(t.last()));
        assert(t =~= t.drop_last().push(t.last()));
    } else {
        assert(s =~= t);
    }
}

/// Distinct addresses have distinct ranks, so the order of reports is total.
pub proof fn lemma_rank_injective(a: IpAddress, b: IpAddress)
    requires
        rank(a) == rank(b),
    ensures
        a == b,
{
    lemma_pow256_16();
    match (a, b) {
        (IpAddress::V4(x), IpAddress::V4(y)) => {
            lemma_be_injective(x@, y@);
            assert(x =~= y);
        },
        (IpAddress::V6(x), IpAddress::V6(y)) => {
            lemma_be_injective(x@, y@);
            assert(x =~= y);
        },
        (IpAddress::V4(x), IpAddress::V6(_)) => {
            lemma_be_bound(x@);
        },
        (IpAddress::V6(_), IpAddress::V4(y)) => {
            lemma_be_bound(y@);
        },
    }
}

} // verus!
