//! The byte texts that reports are made of.

use vstd::prelude::*;

verus! {

/// The ASCII digit of a value below ten.
pub open spec fn digit(n: nat) -> u8 {
    (48 + n) as u8
}

/// The decimal notation of `n`, without leading zeros.
pub open spec fn decimal(n: nat) -> Seq<u8>
    decreases n,
{
    if n < 10 {
        seq![digit(n)]
    } else {
        decimal(n / 10).push(digit(n % 10))
    }
}

/// Appends the decimal notation of `n` to `out`.
pub fn write_decimal(out: &mut Vec<u8>, n: u64)
    ensures
        final(out)@ == old(out)@ + decimal(n as nat),
    decreases n,
{
    if n >= 10 {
        write_decimal(out, n / 10);
    }
    out.push(48 + (n % 10) as u8);
    proof {
        if n < 10 {
            assert(final(out)@ =~= old(out)@ + decimal(n as nat));
        } else {
            assert(final(out)@ =~= old(out)@ + decimal(n as nat));
        }
    }
}

/// The lowercase hexadecimal digit of a value below sixteen.
pub open spec fn hex_digit(n: nat) -> u8 {
    if n < 10 {
        (48 + n) as u8
    } else {
        (87 + n) as u8
    }
}

/// Lowercase base16: two digits for each byte, high nibble first.
pub open spec fn lower_hex(b: Seq<u8>) -> Seq<u8>
    decreases b.len(),
{
    if b.len() == 0 {
        Seq::empty()
    } else {
        lower_hex(b.drop_last()) + seq![hex_digit(b.last() as nat / 16), hex_digit(b.last() as nat % 16)]
    }
}

/// Whether every byte of `s` is a lowercase hexadecimal digit.
pub open spec fn is_lower_hex_text(s: Seq<u8>) -> bool {
    forall|i: int| 0 <= i < s.len() ==> (48 <= #[trigger] s[i] <= 57 || 97 <= s[i] <= 102)
}

/// Lowercase base16 doubles the length and yields only lowercase digits.
pub proof fn lemma_lower_hex_shape(b: Seq<u8>)
    ensures
        lower_hex(b).len() == 2 * b.len(),
        is_lower_hex_text(lower_hex(b)),
    decreases b.len(),
{
    if b.len() > 0 {
        lemma_lower_hex_shape(b.drop_last());
        let p = lower_hex(b.drop_last());
        let t = seq![hex_digit(b.last() as nat / 16), hex_digit(b.last() as nat % 16)];
        assert forall|i: int| 0 <= i < lower_hex(b).len() implies (48 <= #[trigger] lower_hex(b)[i] <= 57
            || 97 <= lower_hex(b)[i] <= 102) by {
            if i >= p.len() {
                assert(lower_hex(b)[i] == t[i - p.len()]);
            } else {
                assert(lower_hex(b)[i] == p[i]);
            }
        }
    }
}

/// The dotted-decimal notation of four address bytes.
pub open spec fn dotted_quad(b: Seq<u8>) -> Seq<u8> {
    decimal(b[0] as nat) + seq![46u8] + decimal(b[1] as nat) + seq![46u8] + decimal(b[2] as nat)
        + seq![46u8] + decimal(b[3] as nat)
}

/// Appends the dotted-decimal notation of an IPv4 address to `out`.
pub fn write_dotted_quad(out: &mut Vec<u8>, b: &[u8; 4])
    ensures
        final(out)@ == old(out)@ + dotted_quad(b@),
{
    write_decimal(out, b[0] as u64);
    out.push(46);
    write_decimal(out, b[1] as u64);
    out.push(46);
    write_decimal(out, b[2] as u64);
    out.push(46);
    write_decimal(out, b[3] as u64);
    assert(final(out)@ =~= old(out)@ + dotted_quad(b@));
}

/// Appends the bytes of `b` to `out`.
pub fn write_bytes(out: &mut Vec<u8>, b: &[u8])
    ensures
        final(out)@ == old(out)@ + b@,
{
    let mut i: usize = 0;
    while i < b.len()
        invariant
            i <= b@.len(),
            out@ == old(out)@ + b@.take(i as int),
        decreases b@.len() - i,
    {
        out.push(b[i]);
        i = i + 1;
        assert(out@ =~= old(out)@ + b@.take(i as int));
    }
    assert(b@.take(i as int) =~= b@);
}

} // verus!
