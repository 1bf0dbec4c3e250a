//! Small helpers on byte vectors shared by the whole crate.

use vstd::prelude::*;

verus! {

/// Compares two byte vectors element by element.
pub fn bytes_eq(a: &Vec<u8>, b: &Vec<u8>) -> (r: bool)
    ensures
        r == (a@ == b@),
{
    if a.len() != b.len() {
        assert(a@ != b@);
        return false;
    }
    let mut i: usize = 0;
    while i < a.len()
        invariant
            i <= a.len(),
            a.len() == b.len(),
            forall|j: int| 0 <= j < i ==> a@[j] == b@[j],
        decreases a.len() - i,
    {
        if a[i] != b[i] {
            assert(a@[i as int] != b@[i as int]);
            return false;
        }
        i = i + 1;
    }
    assert(a@ =~= b@);
    true
}

/// Fresh copy of a byte vector.
pub fn copy_bytes(a: &Vec<u8>) -> (r: Vec<u8>)
    ensures
        r@ == a@,
{
    let mut r: Vec<u8> = Vec::new();
    let mut i: usize = 0;
    while i < a.len()
        invariant
            i <= a.len(),
            r@ =~= a@.take(i as int),
        decreases a.len() - i,
    {
        r.push(a[i]);
        i = i + 1;
    }
    assert(r@ =~= a@);
    r
}

/// Appends all of `t` to `out`.
pub fn push_all(out: &mut Vec<u8>, t: &Vec<u8>)
    ensures
        final(out)@ == old(out)@ + t@,
{
    let mut i: usize = 0;
    while i < t.len()
        invariant
            i <= t.len(),
            out@ =~= old(out)@ + t@.take(i as int),
        decreases t.len() - i,
    {
        out.push(t[i]);
        i = i + 1;
    }
    assert(out@ =~= old(out)@ + t@);
}

/// Whether the bytes of `lit` stand at `pos` in `v`.
pub fn starts_with_at(v: &Vec<u8>, pos: usize, lit: &Vec<u8>) -> (r: bool)
    requires
        pos <= v.len(),
    ensures
        r == lit@.is_prefix_of(v@.skip(pos as int)),
{
    let ghost s = v@.skip(pos as int);
    if v.len() - pos < lit.len() {
        assert(!lit@.is_prefix_of(s));
        return false;
    }
    let mut i: usize = 0;
    while i < lit.len()
        invariant
            i <= lit.len(),
            pos + lit.len() <= v.len(),
            s == v@.skip(pos as int),
            forall|j: int| 0 <= j < i ==> lit@[j] == s[j],
        decreases lit.len() - i,
    {
        assert(s[i as int] == v@[pos + i]);
        if v[pos + i] != lit[i] {
            assert(!lit@.is_prefix_of(s));
            return false;
        }
        i = i + 1;
    }
    assert(lit@ =~= s.take(lit@.len() as int));
    true
}

/// The 4-byte little-endian encoding of a 32-bit unsigned integer.
pub open spec fn le32(n: u32) -> Seq<u8> {
    seq![
        (n & 0xff) as u8,
        ((n >> 8) & 0xff) as u8,
        ((n >> 16) & 0xff) as u8,
        ((n >> 24) & 0xff) as u8,
    ]
}

/// Appends the little-endian encoding of `n` to `out`.
pub fn push_le32(out: &mut Vec<u8>, n: u32)
    ensures
        final(out)@ == old(out)@ + le32(n),
{
    out.push((n & 0xff) as u8);
    out.push(((n >> 8) & 0xff) as u8);
    out.push(((n >> 16) & 0xff) as u8);
    out.push(((n >> 24) & 0xff) as u8);
    assert(out@ =~= old(out)@ + le32(n));
}

} // verus!
