use vstd::prelude::*;

verus! {

/// The decimal digit representation of `n`, most significant digit first,
/// with no leading zeros (the representation of 0 is "0").
pub open spec fn dec_rep(n: nat) -> Seq<u8>
    decreases n,
{
    if n < 10 {
        seq![(0x30 + n) as u8]
    } else {
        dec_rep(n / 10).push((0x30 + n % 10) as u8)
    }
}

/// Appends the decimal digits of `n` to `dst`.
pub fn push_decimal(dst: &mut Vec<u8>, n: usize)
    ensures
        final(dst)@ == old(dst)@ + dec_rep(n as nat),
    decreases n,
{
    if n < 10 {
        dst.push((0x30 + n as u8) as u8);
        assert(dst@ =~= old(dst)@ + dec_rep(n as nat));
    } else {
        push_decimal(dst, n / 10);
        dst.push(0x30 + (n % 10) as u8);
        assert(dst@ =~= old(dst)@ + dec_rep(n as nat));
    }
}

/// Appends all of `src` to `dst`.
pub fn append_bytes(dst: &mut Vec<u8>, src: &Vec<u8>)
    ensures
        final(dst)@ == old(dst)@ + src@,
{
    let mut i: usize = 0;
    while i < src.len()
        invariant
            i <= src.len(),
            dst@ == old(dst)@ + src@.subrange(0, i as int),
        decreases src.len() - i,
    {
        dst.push(src[i]);
        i = i + 1;
        assert(dst@ =~= old(dst)@ + src@.subrange(0, i as int));
    }
    assert(src@.subrange(0, src@.len() as int) =~= src@);
}

/// A fresh copy of `src`.
pub fn copy_bytes(src: &Vec<u8>) -> (r: Vec<u8>)
    ensures
        r@ == src@,
{
    let mut r: Vec<u8> = Vec::new();
    append_bytes(&mut r, src);
    assert(r@ =~= src@);
    r
}

/// The bytes of `src` from `start` (inclusive) to `end` (exclusive).
pub fn subrange_vec(src: &Vec<u8>, start: usize, end: usize) -> (r: Vec<u8>)
    requires
        start <= end <= src@.len(),
    ensures
        r@ == src@.subrange(start as int, end as int),
{
    let mut r: Vec<u8> = Vec::new();
    let mut i: usize = start;
    while i < end
        invariant
            start <= i <= end <= src@.len(),
            r@ == src@.subrange(start as int, i as int),
        decreases end - i,
    {
        r.push(src[i]);
        i = i + 1;
        assert(r@ =~= src@.subrange(start as int, i as int));
    }
    r
}

/// Whether `a` and `b` hold the same bytes.
pub fn bytes_eq(a: &Vec<u8>, b: &Vec<u8>) -> (r: bool)
    ensures
        r <==> a@ == b@,
{
    if a.len() != b.len() {
        return false;
    }
    let mut i: usize = 0;
    while i < a.len()
        invariant
            a@.len() == b@.len(),
            i <= a@.len(),
            forall|j: int| 0 <= j < i ==> a@[j] == b@[j],
        decreases a.len() - i,
    {
        if a[i] != b[i] {
            return false;
        }
        i = i + 1;
    }
    proof {
        assert(a@ =~= b@);
    }
    true
}

/// Whether `p` is a prefix of `v`.
pub fn has_prefix(v: &Vec<u8>, p: &Vec<u8>) -> (r: bool)
    ensures
        r <==> (p@.len() <= v@.len() && v@.subrange(0, p@.len() as int) == p@),
{
    if p.len() > v.len() {
        return false;
    }
    let mut i: usize = 0;
    while i < p.len()
        invariant
            p@.len() <= v@.len(),
            i <= p@.len(),
            forall|j: int| 0 <= j < i ==> v@[j] == p@[j],
        decreases p.len() - i,
    {
        if v[i] != p[i] {
            assert(v@.subrange(0, p@.len() as int)[i as int] != p@[i as int]);
            return false;
        }
        i = i + 1;
    }
    proof {
        assert(v@.subrange(0, p@.len() as int) =~= p@);
    }
    true
}

/// Whether `s` is a suffix of `v`.
pub fn has_suffix(v: &Vec<u8>, s: &Vec<u8>) -> (r: bool)
    ensures
        r <==> (s@.len() <= v@.len() && v@.subrange(v@.len() - s@.len(), v@.len() as int)
            == s@),
{
    if s.len() > v.len() {
        return false;
    }
    let off: usize = v.len() - s.len();
    let mut i: usize = 0;
    while i < s.len()
        invariant
            s@.len() <= v@.len(),
            v@.len() <= usize::MAX,
            off == v@.len() - s@.len(),
            i <= s@.len(),
            forall|j: int| 0 <= j < i ==> v@[off + j] == s@[j],
        decreases s.len() - i,
    {
        assert(off + i < v@.len());
        if v[off + i] != s[i] {
            assert(v@.subrange(v@.len() - s@.len(), v@.len() as int)[i as int] != s@[i as int]);
            return false;
        }
        i = i + 1;
    }
    proof {
        assert(v@.subrange(v@.len() - s@.len(), v@.len() as int) =~= s@);
    }
    true
}

} // verus!
