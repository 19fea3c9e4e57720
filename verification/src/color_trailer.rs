//! The color trailer of BRep exchanges.
//!
//! Appended past the BRep payload, which the BRep reader stops at and ignores:
//! `b"CDCL"`, a `u32` entry count, then per entry a `u32` index into the
//! exchange's shape list and the three `f32` channels, all little-endian.
//! Channels are carried as their IEEE-754 bit patterns.
use std::collections::HashMap;
use vstd::prelude::*;

use crate::bytes::{le32, lemma_le32_round_trip, push_le32, read_le32, u32_from_le};
use crate::colormap::{lemma_restricted_colors, restricted_colors};

verus! {

broadcast use vstd::std_specs::hash::group_hash_axioms;

/// An RGB color as the bit patterns of its three `f32` channels.
#[derive(Debug, Clone, Copy, PartialEq, Eq, Structural)]
pub struct ColorBits {
    pub r: u32,
    pub g: u32,
    pub b: u32,
}

/// `CDCL`
pub open spec fn trailer_magic() -> Seq<u8> {
    seq![67u8, 68, 67, 76]
}

/// The 16 bytes of one entry.
pub open spec fn entry_bytes(e: (u32, ColorBits)) -> Seq<u8> {
    le32(e.0) + le32(e.1.r) + le32(e.1.g) + le32(e.1.b)
}

/// The entries' bytes, in order.
pub open spec fn entries_bytes(e: Seq<(u32, ColorBits)>) -> Seq<u8>
    decreases e.len(),
{
    if e.len() == 0 {
        Seq::empty()
    } else {
        entries_bytes(e.drop_last()) + entry_bytes(e.last())
    }
}

/// The trailer for a list of entries; nothing at all when there is no entry.
pub open spec fn color_trailer_bytes(e: Seq<(u32, ColorBits)>) -> Seq<u8> {
    if e.len() == 0 {
        Seq::empty()
    } else {
        trailer_magic() + le32(e.len() as u32) + entries_bytes(e)
    }
}

/// The map that a list of entries denotes: later entries win.
pub open spec fn entries_map(e: Seq<(u32, ColorBits)>) -> Map<u32, ColorBits>
    decreases e.len(),
{
    if e.len() == 0 {
        Map::empty()
    } else {
        entries_map(e.drop_last()).insert(e.last().0, e.last().1)
    }
}

/// The entry stored at position `k` of a trailer body.
pub open spec fn entry_at(t: Seq<u8>, k: int) -> (u32, ColorBits) {
    let o = 8 + 16 * k;
    (
        u32_from_le(t.subrange(o, o + 4)),
        ColorBits {
            r: u32_from_le(t.subrange(o + 4, o + 8)),
            g: u32_from_le(t.subrange(o + 8, o + 12)),
            b: u32_from_le(t.subrange(o + 12, o + 16)),
        },
    )
}

/// The map of the first `n` entries of a trailer body; later entries win.
pub open spec fn decoded_entries(t: Seq<u8>, n: nat) -> Map<u32, ColorBits>
    decreases n,
{
    if n == 0 {
        Map::empty()
    } else {
        let e = entry_at(t, n - 1);
        decoded_entries(t, (n - 1) as nat).insert(e.0, e.1)
    }
}

/// What the reader makes of the bytes after a BRep payload: the trailer's
/// map, or an empty map when the bytes are not a complete trailer (bytes
/// after a complete trailer are ignored).
pub open spec fn decoded_trailer(t: Seq<u8>) -> Map<u32, ColorBits> {
    if t.len() < 8 || t.take(4) != trailer_magic() {
        Map::empty()
    } else {
        let count = u32_from_le(t.subrange(4, 8)) as int;
        let end = count * 16 + 8;
        if end > usize::MAX || t.len() < end {
            Map::empty()
        } else {
            decoded_entries(t, count as nat)
        }
    }
}

/// `i` is the last position of `ids[i]` in `ids`.
pub open spec fn is_last_index(ids: Seq<u64>, i: int) -> bool {
    forall|j: int| i < j < ids.len() ==> #[trigger] ids[j] != ids[i]
}

/// The trailer entries for a list of shape ids and a color map: in increasing
/// position order, each colored id once, at its last position.
pub open spec fn trailer_entries(ids: Seq<u64>, m: Map<u64, ColorBits>, n: nat) -> Seq<
    (u32, ColorBits),
>
    decreases n,
{
    if n == 0 {
        Seq::empty()
    } else {
        let prev = trailer_entries(ids, m, (n - 1) as nat);
        let i = n - 1;
        if m.contains_key(ids[i]) && is_last_index(ids, i) {
            prev.push(((i as u32), m[ids[i]]))
        } else {
            prev
        }
    }
}

/// Colors by shape id: every trailer entry whose index names a listed shape;
/// where several indices name the same id, the highest index wins.
pub open spec fn resolved_trailer(trailer: Map<u32, ColorBits>, ids: Seq<u64>, n: nat) -> Map<
    u64,
    ColorBits,
>
    decreases n,
{
    if n == 0 {
        Map::empty()
    } else {
        let r = resolved_trailer(trailer, ids, (n - 1) as nat);
        let i = n - 1;
        if i <= u32::MAX && trailer.contains_key(i as u32) {
            r.insert(ids[i], trailer[i as u32])
        } else {
            r
        }
    }
}

/// The last position of each id among the first `n`.
spec fn last_positions(ids: Seq<u64>, n: nat) -> Map<u64, usize>
    decreases n,
{
    if n == 0 {
        Map::empty()
    } else {
        last_positions(ids, (n - 1) as nat).insert(ids[n - 1], (n - 1) as usize)
    }
}

proof fn lemma_last_positions(ids: Seq<u64>, n: nat)
    requires
        n <= ids.len(),
        n <= usize::MAX + 1,
    ensures
        forall|i: int|
            0 <= i < n ==> #[trigger] last_positions(ids, n).contains_key(ids[i]) && (last_positions(
                ids,
                n,
            )[ids[i]] == i <==> forall|j: int| i < j < n ==> #[trigger] ids[j] != ids[i]),
    decreases n,
{
    if n > 0 {
        lemma_last_positions(ids, (n - 1) as nat);
        let m = last_positions(ids, n);
        let prev = last_positions(ids, (n - 1) as nat);
        assert forall|i: int| 0 <= i < n implies #[trigger] m.contains_key(ids[i]) && (m[ids[i]] == i
            <==> forall|j: int| i < j < n ==> #[trigger] ids[j] != ids[i]) by {
            if i < n - 1 {
                assert(prev.contains_key(ids[i]));
                if ids[i] == ids[n - 1] {
                    assert(m[ids[i]] == n - 1);
                    assert(!(forall|j: int| i < j < n ==> #[trigger] ids[j] != ids[i])) by {
                        assert(ids[(n - 1) as int] == ids[i]);
                    }
                } else {
                    assert(m[ids[i]] == prev[ids[i]]);
                    if m[ids[i]] == i {
                        assert forall|j: int| i < j < n implies #[trigger] ids[j] != ids[i] by {
                            if j < n - 1 {
                                assert(i < j < n - 1);
                            }
                        }
                    }
                    if forall|j: int| i < j < n ==> #[trigger] ids[j] != ids[i] {
                        assert forall|j: int| i < j < n - 1 implies #[trigger] ids[j] != ids[i] by {
                            assert(i < j < n);
                        }
                    }
                }
            }
        }
    }
}

/// The entries to write for a list of shape ids and a color map.
#[verifier::spinoff_prover]
#[verifier::rlimit(40)]
pub fn color_trailer_entries(ids: &[u64], colormap: &HashMap<u64, ColorBits>) -> (r: Vec<
    (u32, ColorBits),
>)
    requires
        ids@.len() <= u32::MAX + 1,
    ensures
        r@ == trailer_entries(ids@, colormap@, ids@.len()),
{
    let n = ids.len();
    let mut last: HashMap<u64, usize> = HashMap::new();
    for i in 0..n
        invariant
            n == ids@.len(),
            last@ == last_positions(ids@, i as nat),
    {
        last.insert(ids[i], i);
    }
    proof {
        lemma_last_positions(ids@, n as nat);
    }
    let mut out: Vec<(u32, ColorBits)> = Vec::new();
    for i in 0..n
        invariant
            n == ids@.len(),
            n <= u32::MAX + 1,
            last@ == last_positions(ids@, n as nat),
            forall|k: int|
                0 <= k < n ==> #[trigger] last@.contains_key(ids@[k]) && (last@[ids@[k]] == k
                    <==> forall|j: int| k < j < n ==> #[trigger] ids@[j] != ids@[k]),
            out@ == trailer_entries(ids@, colormap@, i as nat),
    {
        let id = ids[i];
        let at_last = match last.get(&id) {
            Some(p) => *p == i,
            None => false,
        };
        assert(at_last == is_last_index(ids@, i as int));
        if at_last {
            match colormap.get(&id) {
                Some(c) => {
                    out.push((i as u32, *c));
                },
                None => {},
            }
        }
    }
    out
}

/// The trailer bytes for a list of entries (none for no entry).
pub fn encode_color_trailer(entries: &[(u32, ColorBits)]) -> (r: Vec<u8>)
    requires
        entries@.len() <= u32::MAX,
    ensures
        r@ == color_trailer_bytes(entries@),
{
    let mut out: Vec<u8> = Vec::new();
    if entries.len() == 0 {
        assert(out@ =~= color_trailer_bytes(entries@));
        return out;
    }
    out.push(67u8);
    out.push(68u8);
    out.push(67u8);
    out.push(76u8);
    push_le32(&mut out, entries.len() as u32);
    let ghost head = out@;
    assert(head =~= trailer_magic() + le32(entries@.len() as u32));
    let n = entries.len();
    for k in 0..n
        invariant
            n == entries@.len(),
            out@ == head + entries_bytes(entries@.take(k as int)),
    {
        let (idx, c) = entries[k];
        push_le32(&mut out, idx);
        push_le32(&mut out, c.r);
        push_le32(&mut out, c.g);
        push_le32(&mut out, c.b);
        proof {
            assert(entries@.take(k + 1).drop_last() =~= entries@.take(k as int));
            assert(entries@.take(k + 1).last() == entries@[k as int]);
            assert(out@ =~= head + entries_bytes(entries@.take(k + 1)));
        }
    }
    assert(entries@.take(n as int) =~= entries@);
    out
}

/// The shape list that trailer indices count: the solids, then the faces.
pub fn trailer_ids(solid_ids: &[u64], face_ids: &[u64]) -> (r: Vec<u64>)
    ensures
        r@ == solid_ids@ + face_ids@,
{
    let mut out: Vec<u64> = Vec::new();
    for i in 0..solid_ids.len()
        invariant
            out@ == solid_ids@.take(i as int),
    {
        out.push(solid_ids[i]);
        assert(out@ =~= solid_ids@.take(i + 1));
    }
    assert(solid_ids@.take(solid_ids@.len() as int) =~= solid_ids@);
    for i in 0..face_ids.len()
        invariant
            out@ == solid_ids@ + face_ids@.take(i as int),
    {
        out.push(face_ids[i]);
        assert(out@ =~= solid_ids@ + face_ids@.take(i + 1));
    }
    assert(face_ids@.take(face_ids@.len() as int) =~= face_ids@);
    out
}

/// The trailer to append after a BRep payload for the exchange's shape list
/// and its color map (no bytes when no listed shape is colored).
pub fn write_color_trailer(ids: &[u64], colormap: &HashMap<u64, ColorBits>) -> (r: Vec<u8>)
    requires
        ids@.len() <= u32::MAX,
    ensures
        r@ == color_trailer_bytes(trailer_entries(ids@, colormap@, ids@.len())),
{
    let entries = color_trailer_entries(ids, colormap);
    proof {
        lemma_trailer_entries_len(ids@, colormap@, ids@.len());
    }
    encode_color_trailer(entries.as_slice())
}

/// Decode the bytes after a BRep payload into the trailer's index → color map.
pub fn read_color_trailer(tail: &[u8]) -> (r: HashMap<u32, ColorBits>)
    ensures
        r@ == decoded_trailer(tail@),
{
    let mut colormap: HashMap<u32, ColorBits> = HashMap::new();
    if tail.len() < 8 || tail[0] != 67u8 || tail[1] != 68u8 || tail[2] != 67u8 || tail[3] != 76u8 {
        proof {
            if tail@.len() >= 8 {
                if tail@.take(4) == trailer_magic() {
                    assert(tail@.take(4)[0] == tail@[0]);
                    assert(tail@.take(4)[1] == tail@[1]);
                    assert(tail@.take(4)[2] == tail@[2]);
                    assert(tail@.take(4)[3] == tail@[3]);
                }
            }
        }
        return colormap;
    }
    assert(tail@.take(4) =~= trailer_magic());
    let count = read_le32(tail, 4);
    let count = count as usize;
    let end = match count.checked_mul(16) {
        Some(n) => match n.checked_add(8) {
            Some(e) => e,
            None => return colormap,
        },
        None => return colormap,
    };
    if tail.len() < end {
        return colormap;
    }
    for k in 0..count
        invariant
            count * 16 + 8 <= tail@.len(),
            tail@.len() == tail.len(),
            colormap@ == decoded_entries(tail@, k as nat),
    {
        let o = 8 + 16 * k;
        let idx = read_le32(tail, o);
        let r = read_le32(tail, o + 4);
        let g = read_le32(tail, o + 8);
        let b = read_le32(tail, o + 12);
        colormap.insert(idx, ColorBits { r, g, b });
    }
    colormap
}

/// Colors by shape id from a decoded trailer and the exchange's shape list.
pub fn resolve_color_trailer(trailer: &HashMap<u32, ColorBits>, ids: &[u64]) -> (r: HashMap<
    u64,
    ColorBits,
>)
    ensures
        r@ == resolved_trailer(trailer@, ids@, ids@.len()),
{
    let mut result: HashMap<u64, ColorBits> = HashMap::new();
    let n = ids.len();
    for i in 0..n
        invariant
            n == ids@.len(),
            result@ == resolved_trailer(trailer@, ids@, i as nat),
    {
        if i <= 0xffff_ffffusize {
            match trailer.get(&(i as u32)) {
                Some(c) => {
                    result.insert(ids[i], *c);
                },
                None => {},
            }
        }
    }
    result
}

pub(crate) proof fn lemma_entries_bytes_layout(e: Seq<(u32, ColorBits)>)
    ensures
        entries_bytes(e).len() == 16 * e.len(),
        forall|k: int, j: int|
            0 <= k < e.len() && 0 <= j < 16 ==> #[trigger] entries_bytes(e)[16 * k + j] == entry_bytes(
                e[k],
            )[j],
    decreases e.len(),
{
    if e.len() > 0 {
        let p = e.drop_last();
        lemma_entries_bytes_layout(p);
        let b = entries_bytes(e);
        assert forall|k: int, j: int| 0 <= k < e.len() && 0 <= j < 16 implies #[trigger] b[16 * k + j]
            == entry_bytes(e[k])[j] by {
            if k < p.len() {
                assert(e[k] == p[k]);
                assert(b[16 * k + j] == entries_bytes(p)[16 * k + j]);
            } else {
                assert(b[16 * k + j] == entry_bytes(e.last())[j]);
            }
        }
    }
}

proof fn lemma_decoded_entries_match(t: Seq<u8>, e: Seq<(u32, ColorBits)>, n: nat)
    requires
        n <= e.len(),
        t.len() >= 8 + 16 * e.len(),
        forall|k: int, j: int| 0 <= k < e.len() && 0 <= j < 16 ==> #[trigger] t[8 + 16 * k + j] == entry_bytes(e[k])[j],
    ensures
        decoded_entries(t, n) == entries_map(e.take(n as int)),
    decreases n,
{
    if n > 0 {
        lemma_decoded_entries_match(t, e, (n - 1) as nat);
        let k = n - 1;
        let o = 8 + 16 * k;
        let ent = e[k];
        let eb = entry_bytes(ent);
        assert(t.subrange(o, o + 4) =~= le32(ent.0)) by {
            assert forall|j: int| 0 <= j < 4 implies #[trigger] t.subrange(o, o + 4)[j] == le32(ent.0)[j] by {
                assert(t[8 + 16 * k + j] == eb[j]);
            }
        }
        assert(t.subrange(o + 4, o + 8) =~= le32(ent.1.r)) by {
            assert forall|j: int| 0 <= j < 4 implies #[trigger] t.subrange(o + 4, o + 8)[j] == le32(ent.1.r)[j] by {
                assert(t[8 + 16 * k + (j + 4)] == eb[j + 4]);
            }
        }
        assert(t.subrange(o + 8, o + 12) =~= le32(ent.1.g)) by {
            assert forall|j: int| 0 <= j < 4 implies #[trigger] t.subrange(o + 8, o + 12)[j] == le32(ent.1.g)[j] by {
                assert(t[8 + 16 * k + (j + 8)] == eb[j + 8]);
            }
        }
        assert(t.subrange(o + 12, o + 16) =~= le32(ent.1.b)) by {
            assert forall|j: int| 0 <= j < 4 implies #[trigger] t.subrange(o + 12, o + 16)[j] == le32(ent.1.b)[j] by {
                assert(t[8 + 16 * k + (j + 12)] == eb[j + 12]);
            }
        }
        lemma_le32_round_trip(ent.0);
        lemma_le32_round_trip(ent.1.r);
        lemma_le32_round_trip(ent.1.g);
        lemma_le32_round_trip(ent.1.b);
        assert(entry_at(t, k) == ent);
        assert(e.take(n as int).drop_last() =~= e.take(k));
        assert(e.take(n as int).last() == ent);
    }
}

/// What the writer writes, the reader reads back: the trailer of a non-empty
/// list of entries decodes to the map of those entries (later entries win),
/// whatever bytes follow it.
pub proof fn lemma_color_trailer_round_trip(e: Seq<(u32, ColorBits)>, extra: Seq<u8>)
    requires
        0 < e.len() <= u32::MAX,
        16 * e.len() + 8 <= usize::MAX,
    ensures
        decoded_trailer(color_trailer_bytes(e) + extra) == entries_map(e),
{
    let t = color_trailer_bytes(e) + extra;
    let n = e.len();
    lemma_entries_bytes_layout(e);
    let body = entries_bytes(e);
    let head = trailer_magic() + le32(n as u32);
    assert(head.len() == 8);
    assert(t.take(4) =~= trailer_magic());
    assert(t.subrange(4, 8) =~= le32(n as u32));
    lemma_le32_round_trip(n as u32);
    assert forall|k: int, j: int| 0 <= k < e.len() && 0 <= j < 16 implies #[trigger] t[8 + 16 * k + j]
        == entry_bytes(e[k])[j] by {
        assert(t[8 + 16 * k + j] == body[16 * k + j]);
    }
    lemma_decoded_entries_match(t, e, n as nat);
    assert(e.take(n as int) =~= e);
}

/// Every position holding an id is followed by (or is) the last position of
/// that id.
pub(crate) proof fn lemma_last_index_exists(ids: Seq<u64>, i: int)
    requires
        0 <= i < ids.len(),
    ensures
        exists|j: int| i <= j < ids.len() && ids[j] == ids[i] && #[trigger] is_last_index(ids, j),
    decreases ids.len() - i,
{
    if !is_last_index(ids, i) {
        let j = choose|j: int| i < j < ids.len() && #[trigger] ids[j] == ids[i];
        lemma_last_index_exists(ids, j);
        let k = choose|k: int| j <= k < ids.len() && ids[k] == ids[j] && #[trigger] is_last_index(ids, k);
        assert(i <= k < ids.len() && ids[k] == ids[i] && is_last_index(ids, k));
    } else {
        assert(i <= i < ids.len() && ids[i] == ids[i] && is_last_index(ids, i));
    }
}

/// The map of the trailer entries holds, at each last position of a colored
/// id, that id's color.
proof fn lemma_trailer_entries_map(ids: Seq<u64>, m: Map<u64, ColorBits>, n: nat)
    requires
        n <= ids.len(),
        ids.len() <= u32::MAX + 1,
    ensures
        forall|j: u32|
            #[trigger] entries_map(trailer_entries(ids, m, n)).contains_key(j) <==> (j < n
                && m.contains_key(ids[j as int]) && is_last_index(ids, j as int)),
        forall|j: u32|
            #[trigger] entries_map(trailer_entries(ids, m, n)).contains_key(j) ==> entries_map(
                trailer_entries(ids, m, n),
            )[j] == m[ids[j as int]],
    decreases n,
{
    if n > 0 {
        lemma_trailer_entries_map(ids, m, (n - 1) as nat);
        let prev = trailer_entries(ids, m, (n - 1) as nat);
        let pm = entries_map(prev);
        let cur = trailer_entries(ids, m, n);
        let cm = entries_map(cur);
        let i = n - 1;
        assert((i as u32) as int == i);
        if m.contains_key(ids[i]) && is_last_index(ids, i) {
            let x = ((i as u32), m[ids[i]]);
            assert(cur == prev.push(x));
            assert(prev.push(x).drop_last() =~= prev);
            assert(cm == pm.insert(i as u32, m[ids[i]]));
        } else {
            assert(cur == prev);
        }
        assert forall|j: u32| #[trigger] cm.contains_key(j) <==> (j < n && m.contains_key(ids[j as int])
            && is_last_index(ids, j as int)) by {
            assert(pm.contains_key(j) <==> (j < n - 1 && m.contains_key(ids[j as int]) && is_last_index(ids, j as int)));
        }
        assert forall|j: u32| #[trigger] cm.contains_key(j) implies cm[j] == m[ids[j as int]] by {
            if j != i as u32 {
                assert(pm.contains_key(j));
            }
        }
    }
}

/// Colors resolved through a trailer that holds colors at last positions
/// only: an id gets a color exactly when one of its positions is marked.
proof fn lemma_resolved_last_positions(t: Map<u32, ColorBits>, ids: Seq<u64>, m: Map<u64, ColorBits>, n: nat)
    requires
        n <= ids.len(),
        ids.len() <= u32::MAX + 1,
        forall|j: u32|
            #[trigger] t.contains_key(j) <==> (j < ids.len() && m.contains_key(ids[j as int])
                && is_last_index(ids, j as int)),
        forall|j: u32| #[trigger] t.contains_key(j) ==> t[j] == m[ids[j as int]],
    ensures
        forall|id: u64|
            #[trigger] resolved_trailer(t, ids, n).contains_key(id) <==> exists|i: int|
                0 <= i < n && ids[i] == id && m.contains_key(id) && #[trigger] is_last_index(ids, i),
        forall|id: u64| #[trigger] resolved_trailer(t, ids, n).contains_key(id) ==> resolved_trailer(t, ids, n)[id] == m[id],
    decreases n,
{
    if n > 0 {
        lemma_resolved_last_positions(t, ids, m, (n - 1) as nat);
        let i = n - 1;
        let r = resolved_trailer(t, ids, n);
        let prev = resolved_trailer(t, ids, (n - 1) as nat);
        assert((i as u32) as int == i);
        assert forall|id: u64| #[trigger] r.contains_key(id) <==> exists|k: int|
            0 <= k < n && ids[k] == id && m.contains_key(id) && #[trigger] is_last_index(ids, k) by {
            if r.contains_key(id) && !prev.contains_key(id) {
                assert(0 <= i < n && ids[i] == id && m.contains_key(id) && is_last_index(ids, i));
            }
            if exists|k: int| 0 <= k < n && ids[k] == id && m.contains_key(id) && #[trigger] is_last_index(ids, k) {
                let k = choose|k: int| 0 <= k < n && ids[k] == id && m.contains_key(id) && #[trigger] is_last_index(ids, k);
                if k < n - 1 {
                    assert(0 <= k < n - 1 && ids[k] == id && m.contains_key(id) && is_last_index(ids, k));
                } else {
                    assert(t.contains_key(k as u32));
                }
            }
        }
    }
}

/// The colors of a list of ids, as kept by the positions at which each id
/// occurs last: exactly the colored ids of the list.
pub(crate) proof fn lemma_last_positions_cover(ids: Seq<u64>, m: Map<u64, ColorBits>, r: Map<u64, ColorBits>)
    requires
        forall|id: u64|
            #[trigger] r.contains_key(id) <==> exists|i: int|
                0 <= i < ids.len() && ids[i] == id && m.contains_key(id) && #[trigger] is_last_index(ids, i),
        forall|id: u64| #[trigger] r.contains_key(id) ==> r[id] == m[id],
    ensures
        r == restricted_colors(ids, m, ids.len()),
{
    lemma_restricted_colors(ids, m, ids.len());
    let want = restricted_colors(ids, m, ids.len());
    assert forall|id: u64| #[trigger] r.contains_key(id) <==> want.contains_key(id) by {
        if want.contains_key(id) {
            let i = choose|i: int| 0 <= i < ids.len() && ids[i] == id;
            lemma_last_index_exists(ids, i);
            let j = choose|j: int| i <= j < ids.len() && ids[j] == ids[i] && #[trigger] is_last_index(ids, j);
            assert(0 <= j < ids.len() && ids[j] == id && m.contains_key(id) && is_last_index(ids, j));
        }
        if r.contains_key(id) {
            let i = choose|i: int|
                0 <= i < ids.len() && ids[i] == id && m.contains_key(id) && #[trigger] is_last_index(ids, i);
            assert(0 <= i < ids.len() && ids[i] == id);
        }
    }
    assert(r =~= want);
}

/// What a write stores, a read gives back: writing the trailer for a list of
/// shape ids and a color map, then reading it and resolving it against the
/// same list, yields exactly the colors of the listed shapes.
pub proof fn lemma_trailer_colors_round_trip(ids: Seq<u64>, m: Map<u64, ColorBits>)
    requires
        ids.len() <= u32::MAX,
        16 * ids.len() + 8 <= usize::MAX,
    ensures
        resolved_trailer(
            decoded_trailer(color_trailer_bytes(trailer_entries(ids, m, ids.len()))),
            ids,
            ids.len(),
        ) == restricted_colors(ids, m, ids.len()),
{
    let e = trailer_entries(ids, m, ids.len());
    lemma_trailer_entries_len(ids, m, ids.len());
    if e.len() > 0 {
        lemma_color_trailer_round_trip(e, Seq::empty());
        assert(color_trailer_bytes(e) + Seq::<u8>::empty() =~= color_trailer_bytes(e));
    } else {
        assert(entries_map(e) =~= decoded_trailer(color_trailer_bytes(e)));
    }
    let t = entries_map(e);
    lemma_trailer_entries_map(ids, m, ids.len());
    lemma_resolved_last_positions(t, ids, m, ids.len());
    lemma_last_positions_cover(ids, m, resolved_trailer(t, ids, ids.len()));
}

pub(crate) proof fn lemma_trailer_entries_len(ids: Seq<u64>, m: Map<u64, ColorBits>, n: nat)
    ensures
        trailer_entries(ids, m, n).len() <= n,
    decreases n,
{
    if n > 0 {
        lemma_trailer_entries_len(ids, m, (n - 1) as nat);
    }
}

/// The colors that the shapes of a new list get from a write for `ids`,
/// position by position (the new list numbers the same shapes in the same
/// order, under new ids): the new id at each last position of a colored id
/// takes that id's color; later positions win.
pub open spec fn renamed_colors(ids: Seq<u64>, new_ids: Seq<u64>, m: Map<u64, ColorBits>, n: nat) -> Map<
    u64,
    ColorBits,
>
    decreases n,
{
    if n == 0 {
        Map::empty()
    } else {
        let r = renamed_colors(ids, new_ids, m, (n - 1) as nat);
        let i = n - 1;
        if m.contains_key(ids[i]) && is_last_index(ids, i) {
            r.insert(new_ids[i], m[ids[i]])
        } else {
            r
        }
    }
}

proof fn lemma_resolved_renamed(t: Map<u32, ColorBits>, ids: Seq<u64>, new_ids: Seq<u64>, m: Map<u64, ColorBits>, n: nat)
    requires
        n <= ids.len(),
        ids.len() <= u32::MAX + 1,
        forall|j: u32|
            #[trigger] t.contains_key(j) <==> (j < ids.len() && m.contains_key(ids[j as int])
                && is_last_index(ids, j as int)),
        forall|j: u32| #[trigger] t.contains_key(j) ==> t[j] == m[ids[j as int]],
    ensures
        resolved_trailer(t, new_ids, n) == renamed_colors(ids, new_ids, m, n),
    decreases n,
{
    if n > 0 {
        lemma_resolved_renamed(t, ids, new_ids, m, (n - 1) as nat);
        let i = n - 1;
        assert((i as u32) as int == i);
        assert(t.contains_key(i as u32) <==> (m.contains_key(ids[i]) && is_last_index(ids, i)));
    }
}

/// What a write stores, a read gives back under new ids: writing the trailer
/// for `ids`, then reading it back for a shape list `new_ids` of the same
/// length (the same shapes, as the reader numbers them), gives each shape of
/// the new list the color its position had in the write.
pub proof fn lemma_trailer_colors_renamed(ids: Seq<u64>, new_ids: Seq<u64>, m: Map<u64, ColorBits>)
    requires
        ids.len() <= u32::MAX,
        new_ids.len() == ids.len(),
        16 * ids.len() + 8 <= usize::MAX,
    ensures
        resolved_trailer(
            decoded_trailer(color_trailer_bytes(trailer_entries(ids, m, ids.len()))),
            new_ids,
            new_ids.len(),
        ) == renamed_colors(ids, new_ids, m, ids.len()),
{
    let e = trailer_entries(ids, m, ids.len());
    lemma_trailer_entries_len(ids, m, ids.len());
    if e.len() > 0 {
        lemma_color_trailer_round_trip(e, Seq::empty());
        assert(color_trailer_bytes(e) + Seq::<u8>::empty() =~= color_trailer_bytes(e));
    } else {
        assert(entries_map(e) =~= decoded_trailer(color_trailer_bytes(e)));
    }
    lemma_trailer_entries_map(ids, m, ids.len());
    lemma_resolved_renamed(entries_map(e), ids, new_ids, m, ids.len());
}

} // verus!
