//! Decimal notation in ASCII, as the sentences and storage keys need it.

use vstd::prelude::*;

verus! {

/// The ASCII digit for `d`, which is meant to lie in `0..10`.
pub open spec fn digit(d: int) -> u8 {
    ('0' as u8 + d) as u8
}

/// `n` in decimal, with zeros in front until it has at least `width` digits.
pub open spec fn padded(n: nat, width: nat) -> Seq<u8>
    decreases n, width,
{
    if n < 10 && width <= 1 {
        seq![digit(n as int)]
    } else {
        padded(n / 10, if width == 0 { 0 } else { (width - 1) as nat }).push(digit((n % 10) as int))
    }
}

/// `n` in decimal, without leading zeros.
pub open spec fn decimal(n: nat) -> Seq<u8> {
    padded(n, 1)
}

/// Appends `n` in decimal to `out`, zero-padded to at least `width` digits.
pub fn push_padded(out: &mut Vec<u8>, n: u64, width: u32)
    ensures
        final(out)@ == old(out)@ + padded(n as nat, width as nat),
    decreases n, width,
{
    if n < 10 && width <= 1 {
        out.push('0' as u8 + n as u8);
        assert(final(out)@ =~= old(out)@ + padded(n as nat, width as nat));
    } else {
        let rest: u32 = if width == 0 { 0 } else { width - 1 };
        push_padded(out, n / 10, rest);
        out.push('0' as u8 + (n % 10) as u8);
        assert(final(out)@ =~= old(out)@ + padded(n as nat, width as nat));
    }
}

/// Appends `n` in decimal to `out`.
pub fn push_decimal(out: &mut Vec<u8>, n: u64)
    ensures
        final(out)@ == old(out)@ + decimal(n as nat),
{
    push_padded(out, n, 1)
}

/// Appends a copy of `bytes` to `out`.
pub fn push_bytes(out: &mut Vec<u8>, bytes: &[u8])
    ensures
        final(out)@ == old(out)@ + bytes@,
{
    let mut i: usize = 0;
    while i < bytes.len()
        invariant
            i <= bytes.len(),
            out@ == old(out)@ + bytes@.subrange(0, i as int),
        decreases bytes.len() - i,
    {
        out.push(bytes[i]);
        i = i + 1;
        assert(out@ =~= old(out)@ + bytes@.subrange(0, i as int));
    }
    assert(bytes@.subrange(0, i as int) =~= bytes@);
}

} // verus!
