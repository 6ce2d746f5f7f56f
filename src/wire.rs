//! Big-endian integer fields, byte copies, and sequencing of decode results.
use vstd::prelude::*;
use crate::errors::BgpError;

verus! {

/// The value of a big-endian 16-bit field.
pub open spec fn be16(hi: u8, lo: u8) -> nat {
    (hi as nat) * 256 + (lo as nat)
}

/// The value of a big-endian 32-bit field.
pub open spec fn be32(b0: u8, b1: u8, b2: u8, b3: u8) -> nat {
    (((b0 as nat) * 256 + (b1 as nat)) * 256 + (b2 as nat)) * 256 + (b3 as nat)
}

/// The two bytes of a 16-bit value, most significant first.
pub open spec fn be16_bytes(v: u16) -> Seq<u8> {
    seq![(v / 256) as u8, (v % 256) as u8]
}

/// The four bytes of a 32-bit value, most significant first.
pub open spec fn be32_bytes(v: u32) -> Seq<u8> {
    seq![(v / 0x100_0000) as u8, ((v / 0x1_0000) % 256) as u8, ((v / 256) % 256) as u8, (v % 256) as u8]
}

/// A 16-bit value reads back from its two bytes.
pub proof fn lemma_be16_bytes(v: u16)
    ensures
        be16(be16_bytes(v)[0], be16_bytes(v)[1]) == v,
{
}

/// A 32-bit value reads back from its four bytes.
pub proof fn lemma_be32_bytes(v: u32)
    ensures
        be32(be32_bytes(v)[0], be32_bytes(v)[1], be32_bytes(v)[2], be32_bytes(v)[3]) == v,
{
}

/// Reads a big-endian `u16` at `at`.
pub fn read_u16(b: &[u8], at: usize) -> (r: u16)
    requires
        at + 2 <= b@.len(),
    ensures
        r == be16(b@[at as int], b@[at + 1]),
{
    (b[at] as u16) * 256 + (b[at + 1] as u16)
}

/// Reads a big-endian `u32` at `at`.
pub fn read_u32(b: &[u8], at: usize) -> (r: u32)
    requires
        at + 4 <= b@.len(),
    ensures
        r == be32(b@[at as int], b@[at + 1], b@[at + 2], b@[at + 3]),
{
    let b0 = b[at] as u32;
    let b1 = b[at + 1] as u32;
    let b2 = b[at + 2] as u32;
    let b3 = b[at + 3] as u32;
    ((b0 * 256 + b1) * 256 + b2) * 256 + b3
}

/// Appends `v` in big-endian order.
pub fn push_u16(out: &mut Vec<u8>, v: u16)
    ensures
        final(out)@ == old(out)@ + be16_bytes(v),
{
    out.push((v / 256) as u8);
    out.push((v % 256) as u8);
    assert(final(out)@ =~= old(out)@ + be16_bytes(v));
}

/// Appends `v` in big-endian order.
pub fn push_u32(out: &mut Vec<u8>, v: u32)
    ensures
        final(out)@ == old(out)@ + be32_bytes(v),
{
    out.push((v / 0x100_0000) as u8);
    out.push(((v / 0x1_0000) % 256) as u8);
    out.push(((v / 256) % 256) as u8);
    out.push((v % 256) as u8);
    assert(final(out)@ =~= old(out)@ + be32_bytes(v));
}

/// `r` put after the already decoded `done`, or the error that `r` holds.
pub open spec fn after<T>(done: Seq<T>, r: Result<Seq<T>, BgpError>) -> Result<Seq<T>, BgpError> {
    match r {
        Ok(rest) => Ok(done + rest),
        Err(e) => Err(e),
    }
}

/// Nothing decoded before leaves a result as it is.
pub proof fn lemma_after_empty<T>(r: Result<Seq<T>, BgpError>)
    ensures
        after(Seq::<T>::empty(), r) == r,
{
    if let Ok(rest) = r {
        assert(Seq::<T>::empty() + rest =~= rest);
    }
}

/// Putting results after two decoded runs in turn is putting them after both at once.
pub proof fn lemma_after_after<T>(a: Seq<T>, b: Seq<T>, r: Result<Seq<T>, BgpError>)
    ensures
        after(a, after(b, r)) == after(a + b, r),
{
    if let Ok(rest) = r {
        assert(a + (b + rest) =~= (a + b) + rest);
    }
}

/// A copy of `b[start..end]`.
pub fn copy_range(b: &[u8], start: usize, end: usize) -> (r: Vec<u8>)
    requires
        start <= end <= b@.len(),
    ensures
        r@ == b@.subrange(start as int, end as int),
{
    let mut r: Vec<u8> = Vec::new();
    let mut i: usize = start;
    while i < end
        invariant
            start <= i <= end <= b@.len(),
            r@ == b@.subrange(start as int, i as int),
        decreases end - i,
    {
        r.push(b[i]);
        assert(b@.subrange(start as int, i + 1) =~= b@.subrange(start as int, i as int).push(b@[i as int]));
        i = i + 1;
    }
    r
}

/// Appends all of `b` to `out`.
pub fn push_all(out: &mut Vec<u8>, b: &[u8])
    ensures
        final(out)@ == old(out)@ + b@,
{
    let mut i: usize = 0;
    while i < b.len()
        invariant
            i <= b@.len(),
            out@ == old(out)@ + b@.take(i as int),
        decreases b@.len() - i,
    {
        out.push(b[i]);
        assert(b@.take(i + 1) =~= b@.take(i as int).push(b@[i as int]));
        i = i + 1;
    }
    assert(b@.take(i as int) =~= b@);
}

} // verus!
