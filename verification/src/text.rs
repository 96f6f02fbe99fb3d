//! Building the text of messages: bytes appended to a buffer.
use vstd::prelude::*;

verus! {

/// The decimal digits of `n`, most significant first.
pub open spec fn decimal(n: nat) -> Seq<u8>
    decreases n,
{
    if n < 10 {
        seq![('0' as u8 + n) as u8]
    } else {
        decimal(n / 10).push(('0' as u8 + n % 10) as u8)
    }
}

/// Appends `bytes` to `out`.
pub fn append_bytes(out: &mut Vec<u8>, bytes: &[u8])
    ensures
        final(out)@ == old(out)@ + bytes@,
{
    let mut i: usize = 0;
    while i < bytes.len()
        invariant
            i <= bytes@.len(),
            out@ == old(out)@ + bytes@.subrange(0, i as int),
        decreases bytes@.len() - i,
    {
        out.push(bytes[i]);
        i += 1;
        assert(out@ =~= old(out)@ + bytes@.subrange(0, i as int));
    }
    assert(bytes@.subrange(0, i as int) =~= bytes@);
}

/// Appends the decimal digits of `n` to `out`.
pub fn append_decimal(out: &mut Vec<u8>, n: usize)
    ensures
        final(out)@ == old(out)@ + decimal(n as nat),
    decreases n,
{
    if n >= 10 {
        append_decimal(out, n / 10);
    }
    let digit = (n % 10) as u8;
    out.push('0' as u8 + digit);
    assert(out@ =~= old(out)@ + decimal(n as nat));
}

} // verus!
