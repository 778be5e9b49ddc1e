//! Small verified helpers on byte strings.
//!
//! Paths, destinations, slugs and patterns are all held as byte strings;
//! every operation the checker needs on them is defined here with an exact
//! specification.

use vstd::prelude::*;

verus! {

/// Appends every byte of `src` to `dst`.
pub fn append_bytes(dst: &mut Vec<u8>, src: &[u8])
    ensures
        final(dst)@ == old(dst)@ + src@,
{
    let n = src.len();
    let mut i: usize = 0;
    while i < n
        invariant
            i <= n,
            n == src@.len(),
            dst@ == old(dst)@ + src@.subrange(0, i as int),
        decreases n - i,
    {
        dst.push(src[i]);
        i = i + 1;
        assert(dst@ == old(dst)@ + src@.subrange(0, i as int));
    }
    assert(src@.subrange(0, n as int) == src@);
}

/// Copies the bytes of `v` between `from` and `to`.
pub fn sub_bytes(v: &[u8], from: usize, to: usize) -> (r: Vec<u8>)
    requires
        from <= to <= v@.len(),
    ensures
        r@ == v@.subrange(from as int, to as int),
{
    let mut out: Vec<u8> = Vec::new();
    let mut i: usize = from;
    while i < to
        invariant
            from <= i <= to,
            to <= v@.len(),
            out@ == v@.subrange(from as int, i as int),
        decreases to - i,
    {
        out.push(v[i]);
        i = i + 1;
        assert(out@ =~= v@.subrange(from as int, i as int));
    }
    out
}

/// Copies a byte vector.
pub fn copy_bytes(src: &Vec<u8>) -> (r: Vec<u8>)
    ensures
        r@ == src@,
{
    let mut out: Vec<u8> = Vec::new();
    append_bytes(&mut out, src.as_slice());
    out
}

/// The model of a list of byte strings.
pub open spec fn bytes_seq_view(s: Seq<Vec<u8>>) -> Seq<Seq<u8>> {
    s.map_values(|v: Vec<u8>| v@)
}

/// `p` occurs at position `i` of `h`.
pub open spec fn matches_at(h: Seq<u8>, p: Seq<u8>, i: int) -> bool {
    0 <= i && i + p.len() <= h.len() && h.subrange(i, i + p.len()) == p
}

/// `h` starts with the prefix `p`.
pub open spec fn has_prefix(h: Seq<u8>, p: Seq<u8>) -> bool {
    matches_at(h, p, 0)
}

/// `p` occurs somewhere in `h` as a contiguous substring.
pub open spec fn has_substring(h: Seq<u8>, p: Seq<u8>) -> bool {
    exists|i: int| matches_at(h, p, i)
}

/// Whether `p` occurs at position `i` of `h`, decided byte by byte.
fn check_match_at(h: &[u8], p: &[u8], i: usize) -> (r: bool)
    requires
        i + p@.len() <= h@.len(),
    ensures
        r == matches_at(h@, p@, i as int),
{
    let m = p.len();
    let hn = h.len();
    let mut j: usize = 0;
    while j < m
        invariant
            j <= m,
            m == p@.len(),
            hn == h@.len(),
            i + m <= hn,
            forall|k: int| 0 <= k < j ==> h@[i + k] == p@[k],
        decreases m - j,
    {
        if h[i + j] != p[j] {
            assert(h@.subrange(i as int, i + p@.len())[j as int] != p@[j as int]);
            return false;
        }
        j = j + 1;
    }
    assert(h@.subrange(i as int, i + p@.len()) =~= p@);
    true
}

/// Whether two byte strings hold the same bytes.
pub fn bytes_eq(a: &[u8], b: &[u8]) -> (r: bool)
    ensures
        r == (a@ == b@),
{
    if a.len() != b.len() {
        assert(a@ != b@);
        return false;
    }
    let r = check_match_at(a, b, 0);
    proof {
        assert(a@.subrange(0, a@.len() as int) =~= a@);
        if a@ == b@ {
            assert(matches_at(a@, b@, 0));
        }
    }
    r
}

/// Whether a list of byte strings holds `x`.
pub fn contains_vec(list: &Vec<Vec<u8>>, x: &Vec<u8>) -> (r: bool)
    ensures
        r == bytes_seq_view(list@).contains(x@),
{
    let n = list.len();
    let mut i: usize = 0;
    while i < n
        invariant
            i <= n,
            n == list@.len(),
            forall|j: int| 0 <= j < i ==> bytes_seq_view(list@)[j] != x@,
        decreases n - i,
    {
        if bytes_eq(list[i].as_slice(), x.as_slice()) {
            assert(bytes_seq_view(list@)[i as int] == x@);
            return true;
        }
        i = i + 1;
    }
    assert(!bytes_seq_view(list@).contains(x@));
    false
}

/// Whether `h` starts with `p`.
pub fn starts_with(h: &[u8], p: &[u8]) -> (r: bool)
    ensures
        r == has_prefix(h@, p@),
{
    if p.len() > h.len() {
        return false;
    }
    check_match_at(h, p, 0)
}

/// Whether `p` occurs somewhere in `h`.
pub fn contains_bytes(h: &[u8], p: &[u8]) -> (r: bool)
    ensures
        r == has_substring(h@, p@),
{
    let n = h.len();
    let m = p.len();
    if m > n {
        assert(forall|i: int| !matches_at(h@, p@, i));
        return false;
    }
    if m == 0 {
        assert(matches_at(h@, p@, 0)) by {
            assert(h@.subrange(0, 0) =~= p@);
        }
        return true;
    }
    let mut i: usize = 0;
    while i <= n - m
        invariant
            1 <= m <= n,
            n == h@.len(),
            m == p@.len(),
            i <= n - m + 1,
            forall|k: int| 0 <= k < i ==> !matches_at(h@, p@, k),
        decreases n - m - i + 1,
    {
        if check_match_at(h, p, i) {
            return true;
        }
        i = i + 1;
    }
    assert(forall|k: int| matches_at(h@, p@, k) ==> 0 <= k <= n - m);
    false
}

} // verus!
