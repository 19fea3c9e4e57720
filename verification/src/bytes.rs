//! Byte-level helpers shared by the exchange formats: pattern search and
//! little-endian integer encoding.
use vstd::prelude::*;

verus! {

// ==================== Pattern search ====================

/// `pat` occurs in `s` starting at position `p`.
pub open spec fn occurs_at(s: Seq<u8>, pat: Seq<u8>, p: int) -> bool {
    &&& 0 <= p
    &&& p + pat.len() <= s.len()
    &&& forall|i: int| 0 <= i < pat.len() ==> #[trigger] s[p + i] == pat[i]
}

/// `p` is the last position where `pat` occurs in `s`.
pub open spec fn is_last_occurrence(s: Seq<u8>, pat: Seq<u8>, p: int) -> bool {
    &&& occurs_at(s, pat, p)
    &&& forall|q: int| p < q ==> !#[trigger] occurs_at(s, pat, q)
}

/// `q` is the first position at or after `from` where `pat` occurs in `s`.
pub open spec fn is_first_occurrence_from(s: Seq<u8>, pat: Seq<u8>, from: int, q: int) -> bool {
    &&& from <= q
    &&& occurs_at(s, pat, q)
    &&& forall|r: int| from <= r < q ==> !#[trigger] occurs_at(s, pat, r)
}

/// The last occurrence of `pat` in `s`, if any.
pub open spec fn last_occurrence_of(s: Seq<u8>, pat: Seq<u8>) -> Option<int> {
    if exists|p: int| is_last_occurrence(s, pat, p) {
        Some(choose|p: int| is_last_occurrence(s, pat, p))
    } else {
        None
    }
}

/// The first occurrence of `pat` in `s` at or after `from`, if any.
pub open spec fn first_occurrence_from(s: Seq<u8>, pat: Seq<u8>, from: int) -> Option<int> {
    if exists|q: int| is_first_occurrence_from(s, pat, from, q) {
        Some(choose|q: int| is_first_occurrence_from(s, pat, from, q))
    } else {
        None
    }
}

pub proof fn lemma_last_occurrence_unique(s: Seq<u8>, pat: Seq<u8>, p: int)
    requires
        is_last_occurrence(s, pat, p),
    ensures
        last_occurrence_of(s, pat) == Some(p),
{
    let c = choose|c: int| is_last_occurrence(s, pat, c);
    assert(is_last_occurrence(s, pat, c));
    if c < p {
        assert(!occurs_at(s, pat, p));
    }
    if p < c {
        assert(!occurs_at(s, pat, c));
    }
}

pub proof fn lemma_first_occurrence_unique(s: Seq<u8>, pat: Seq<u8>, from: int, q: int)
    requires
        is_first_occurrence_from(s, pat, from, q),
    ensures
        first_occurrence_from(s, pat, from) == Some(q),
{
    let c = choose|c: int| is_first_occurrence_from(s, pat, from, c);
    assert(is_first_occurrence_from(s, pat, from, c));
    if c < q {
        assert(!occurs_at(s, pat, c));
    }
    if q < c {
        assert(!occurs_at(s, pat, q));
    }
}

/// Whether `pat` occurs in `s` at position `p`.
pub fn matches_at(s: &[u8], pat: &[u8], p: usize) -> (r: bool)
    ensures
        r == occurs_at(s@, pat@, p as int),
{
    if p > s.len() || pat.len() > s.len() - p {
        return false;
    }
    let n = pat.len();
    for i in 0..n
        invariant
            n == pat@.len(),
            p + n <= s@.len(),
            s@.len() == s.len(),
            forall|k: int| 0 <= k < i ==> #[trigger] s@[p + k] == pat@[k],
    {
        if s[p + i] != pat[i] {
            return false;
        }
    }
    true
}

/// Position of the last occurrence of a non-empty pattern.
pub fn find_last(s: &[u8], pat: &[u8]) -> (r: Option<usize>)
    requires
        pat@.len() > 0,
    ensures
        match r {
            Some(p) => is_last_occurrence(s@, pat@, p as int),
            None => forall|q: int| !#[trigger] occurs_at(s@, pat@, q),
        },
        r matches Some(p) ==> last_occurrence_of(s@, pat@) == Some(p as int),
        r is None ==> last_occurrence_of(s@, pat@) is None,
{
    if pat.len() > s.len() {
        return None;
    }
    let mut p = s.len() - pat.len() + 1;
    while p > 0
        invariant
            pat@.len() <= s@.len(),
            p <= s@.len() - pat@.len() + 1,
            forall|q: int| p <= q ==> !#[trigger] occurs_at(s@, pat@, q),
        decreases p,
    {
        p = p - 1;
        if matches_at(s, pat, p) {
            proof {
                lemma_last_occurrence_unique(s@, pat@, p as int);
            }
            return Some(p);
        }
    }
    None
}

/// Position of the first occurrence of a non-empty pattern at or after `from`.
pub fn find_first_from(s: &[u8], pat: &[u8], from: usize) -> (r: Option<usize>)
    requires
        pat@.len() > 0,
    ensures
        match r {
            Some(q) => is_first_occurrence_from(s@, pat@, from as int, q as int),
            None => forall|q: int| from <= q ==> !#[trigger] occurs_at(s@, pat@, q),
        },
        r matches Some(q) ==> first_occurrence_from(s@, pat@, from as int) == Some(q as int),
        r is None ==> first_occurrence_from(s@, pat@, from as int) is None,
{
    let mut q = from;
    while q < s.len()
        invariant
            from <= q,
            forall|r: int| from <= r < q ==> !#[trigger] occurs_at(s@, pat@, r),
        decreases s@.len() - q,
    {
        if matches_at(s, pat, q) {
            proof {
                lemma_first_occurrence_unique(s@, pat@, from as int, q as int);
            }
            return Some(q);
        }
        q = q + 1;
    }
    None
}

// ==================== Little-endian integers ====================

/// Little-endian bytes of a `u16`.
pub open spec fn le16(x: u16) -> Seq<u8> {
    seq![(x % 256) as u8, (x / 256) as u8]
}

/// Little-endian bytes of a `u32`.
pub open spec fn le32(x: u32) -> Seq<u8> {
    seq![
        (x % 256) as u8,
        (x / 256 % 256) as u8,
        (x / 65536 % 256) as u8,
        (x / 16777216) as u8,
    ]
}

/// Little-endian bytes of a `u64`.
pub open spec fn le64(x: u64) -> Seq<u8> {
    le32((x % 4294967296) as u32) + le32((x / 4294967296) as u32)
}

/// The `u32` whose little-endian bytes are `b[0..4]`.
pub open spec fn u32_from_le(b: Seq<u8>) -> u32 {
    (b[0] + b[1] * 256 + b[2] * 65536 + b[3] * 16777216) as u32
}

/// Append the little-endian bytes of a `u16`.
pub fn push_le16(out: &mut Vec<u8>, x: u16)
    ensures
        final(out)@ == old(out)@ + le16(x),
{
    out.push((x % 256) as u8);
    out.push((x / 256) as u8);
    assert(final(out)@ =~= old(out)@ + le16(x));
}

/// Append the little-endian bytes of a `u32`.
pub fn push_le32(out: &mut Vec<u8>, x: u32)
    ensures
        final(out)@ == old(out)@ + le32(x),
{
    out.push((x % 256) as u8);
    out.push((x / 256 % 256) as u8);
    out.push((x / 65536 % 256) as u8);
    out.push((x / 16777216) as u8);
    assert(final(out)@ =~= old(out)@ + le32(x));
}

/// Append the little-endian bytes of a `u64`.
pub fn push_le64(out: &mut Vec<u8>, x: u64)
    ensures
        final(out)@ == old(out)@ + le64(x),
{
    push_le32(out, (x % 4294967296) as u32);
    push_le32(out, (x / 4294967296) as u32);
    assert(final(out)@ =~= old(out)@ + le64(x));
}

/// Read a little-endian `u32` at position `p`.
pub fn read_le32(s: &[u8], p: usize) -> (r: u32)
    requires
        p + 4 <= s@.len(),
    ensures
        r == u32_from_le(s@.subrange(p as int, p + 4)),
{
    let b0 = s[p] as u32;
    let b1 = s[p + 1] as u32;
    let b2 = s[p + 2] as u32;
    let b3 = s[p + 3] as u32;
    let r = b0 + b1 * 256 + b2 * 65536 + b3 * 16777216;
    assert(s@.subrange(p as int, p + 4)[0] == s@[p as int]);
    assert(s@.subrange(p as int, p + 4)[1] == s@[p + 1]);
    assert(s@.subrange(p as int, p + 4)[2] == s@[p + 2]);
    assert(s@.subrange(p as int, p + 4)[3] == s@[p + 3]);
    r
}

/// Decoding the little-endian bytes of a `u32` gives the `u32` back.
pub proof fn lemma_le32_round_trip(x: u32)
    ensures
        u32_from_le(le32(x)) == x,
{
    let b = le32(x);
    assert(b[0] == x % 256);
    assert(b[1] == x / 256 % 256);
    assert(b[2] == x / 65536 % 256);
    assert(b[3] == x / 16777216);
    assert(x % 256 + (x / 256 % 256) * 256 + (x / 65536 % 256) * 65536 + (x / 16777216) * 16777216
        == x) by (nonlinear_arith);
}

} // verus!
