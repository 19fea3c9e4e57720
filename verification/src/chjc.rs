//! The CHJC colored BRep container.
//!
//! `b"CHJC"`, a format version byte (1), a `u32` entry count, per entry a
//! `u32` face index and the three `f32` channels (as bit patterns), a `u64`
//! body length, then the binary BRep body; integers little-endian. Face
//! indices count the faces of the body in exploration order.
use std::collections::HashMap;
use vstd::prelude::*;

use crate::bytes::{le32, le64, lemma_le32_round_trip, push_le32, push_le64, read_le32, u32_from_le};
use crate::color_trailer::{
    color_trailer_entries, entries_bytes, entry_bytes, is_last_index, lemma_entries_bytes_layout, lemma_last_positions_cover, lemma_trailer_entries_len,
    renamed_colors, trailer_entries,
    ColorBits,
};
use crate::colormap::restricted_colors;
use crate::error::Error;

verus! {

broadcast use vstd::std_specs::hash::group_hash_axioms;

/// `CHJC`
pub open spec fn chjc_magic() -> Seq<u8> {
    seq![67u8, 72, 74, 67]
}

/// The bytes of a container holding `e` and the BRep `body`.
pub open spec fn chjc_bytes(e: Seq<(u32, ColorBits)>, body: Seq<u8>) -> Seq<u8> {
    chjc_magic() + seq![1u8] + le32(e.len() as u32) + entries_bytes(e) + le64(body.len() as u64) + body
}

/// The entry count stored in a container's header.
pub open spec fn chjc_count(b: Seq<u8>) -> int {
    u32_from_le(b.subrange(5, 9)) as int
}

/// Where the BRep body starts in a container with `count` entries.
pub open spec fn chjc_body_start(count: int) -> int {
    17 + 16 * count
}

/// The header of a container is complete and well-formed: magic, version 1,
/// and all entries plus the body length present.
pub open spec fn chjc_header_ok(b: Seq<u8>) -> bool {
    &&& b.len() >= 9
    &&& b.take(4) == chjc_magic()
    &&& b[4] == 1
    &&& chjc_body_start(chjc_count(b)) <= b.len()
}

/// The `k`-th entry of a container.
pub open spec fn chjc_entry(b: Seq<u8>, k: int) -> (u32, ColorBits) {
    let o = 9 + 16 * k;
    (
        u32_from_le(b.subrange(o, o + 4)),
        ColorBits {
            r: u32_from_le(b.subrange(o + 4, o + 8)),
            g: u32_from_le(b.subrange(o + 8, o + 12)),
            b: u32_from_le(b.subrange(o + 12, o + 16)),
        },
    )
}

/// The entries of a container, in file order.
pub open spec fn chjc_entries(b: Seq<u8>) -> Seq<(u32, ColorBits)> {
    Seq::new(chjc_count(b) as nat, |k: int| chjc_entry(b, k))
}

/// The color header read from the front of a container.
#[derive(Debug)]
pub struct ChjcHeader {
    pub entries: Vec<(u32, ColorBits)>,
    /// Offset of the BRep body.
    pub body_start: usize,
}

/// Colors by face id: each entry whose index names a face gives that face
/// its color; entries further on win.
pub open spec fn chjc_colors(e: Seq<(u32, ColorBits)>, ids: Seq<u64>) -> Map<u64, ColorBits>
    decreases e.len(),
{
    if e.len() == 0 {
        Map::empty()
    } else {
        let m = chjc_colors(e.drop_last(), ids);
        let (idx, c) = e.last();
        if idx < ids.len() {
            m.insert(ids[idx as int], c)
        } else {
            m
        }
    }
}

/// Frame a BRep body and its color entries as a container.
pub fn encode_chjc(entries: &[(u32, ColorBits)], body: &[u8]) -> (r: Vec<u8>)
    requires
        entries@.len() <= u32::MAX,
    ensures
        r@ == chjc_bytes(entries@, body@),
{
    let mut out: Vec<u8> = Vec::new();
    out.push(67u8);
    out.push(72u8);
    out.push(74u8);
    out.push(67u8);
    out.push(1u8);
    push_le32(&mut out, entries.len() as u32);
    let ghost head = out@;
    assert(head =~= chjc_magic() + seq![1u8] + le32(entries@.len() as u32));
    let n = entries.len();
    for k in 0..n
        invariant
            n == entries@.len(),
            out@ == head + entries_bytes(entries@.take(k as int)),
    {
        let (idx, c) = entries[k];
        push_le32(&mut out, idx);
        push_le32(&mut out, c.r);
        push_le32(&mut out, c.g);
        push_le32(&mut out, c.b);
        proof {
            assert(entries@.take(k + 1).drop_last() =~= entries@.take(k as int));
            assert(out@ =~= head + entries_bytes(entries@.take(k + 1)));
        }
    }
    assert(entries@.take(n as int) =~= entries@);
    push_le64(&mut out, body.len() as u64);
    let ghost framed = out@;
    for i in 0..body.len()
        invariant
            out@ == framed + body@.take(i as int),
    {
        out.push(body[i]);
        assert(out@ =~= framed + body@.take(i + 1));
    }
    assert(body@.take(body@.len() as int) =~= body@);
    assert(out@ =~= chjc_bytes(entries@, body@));
    out
}

/// The container for a BRep `body` whose faces, in exploration order, are
/// `face_ids`, colored by `colormap`: each colored face once, at its last
/// position, in position order.
pub fn write_brep_color(face_ids: &[u64], colormap: &HashMap<u64, ColorBits>, body: &[u8]) -> (r: Vec<u8>)
    requires
        face_ids@.len() <= u32::MAX,
    ensures
        r@ == chjc_bytes(trailer_entries(face_ids@, colormap@, face_ids@.len()), body@),
{
    let entries = color_trailer_entries(face_ids, colormap);
    proof {
        lemma_trailer_entries_len(face_ids@, colormap@, face_ids@.len());
    }
    encode_chjc(entries.as_slice(), body)
}

/// Read the color header at the front of a container; a missing or
/// truncated header, another magic or another version is `BrepReadFailed`.
pub fn decode_chjc(bytes: &[u8]) -> (r: Result<ChjcHeader, Error>)
    ensures
        chjc_header_ok(bytes@) <==> r is Ok,
        !chjc_header_ok(bytes@) ==> r == Err::<ChjcHeader, Error>(Error::BrepReadFailed),
        r matches Ok(h) ==> h.entries@ == chjc_entries(bytes@) && h.body_start == chjc_body_start(
            chjc_count(bytes@),
        ),
{
    if bytes.len() < 9 || bytes[0] != 67u8 || bytes[1] != 72u8 || bytes[2] != 74u8 || bytes[3] != 67u8 {
        proof {
            if bytes@.len() >= 9 && bytes@.take(4) == chjc_magic() {
                assert(bytes@.take(4)[0] == bytes@[0]);
                assert(bytes@.take(4)[1] == bytes@[1]);
                assert(bytes@.take(4)[2] == bytes@[2]);
                assert(bytes@.take(4)[3] == bytes@[3]);
            }
        }
        return Err(Error::BrepReadFailed);
    }
    assert(bytes@.take(4) =~= chjc_magic());
    if bytes[4] != 1u8 {
        return Err(Error::BrepReadFailed);
    }
    let count = read_le32(bytes, 5) as usize;
    let body_start = match count.checked_mul(16) {
        Some(n) => match n.checked_add(17) {
            Some(e) => e,
            None => return Err(Error::BrepReadFailed),
        },
        None => return Err(Error::BrepReadFailed),
    };
    if bytes.len() < body_start {
        return Err(Error::BrepReadFailed);
    }
    let mut entries: Vec<(u32, ColorBits)> = Vec::new();
    for k in 0..count
        invariant
            count == chjc_count(bytes@),
            17 + 16 * count <= bytes@.len(),
            bytes@.len() == bytes.len(),
            entries@ == chjc_entries(bytes@).take(k as int),
    {
        let o = 9 + 16 * k;
        let idx = read_le32(bytes, o);
        let r = read_le32(bytes, o + 4);
        let g = read_le32(bytes, o + 8);
        let b = read_le32(bytes, o + 12);
        entries.push((idx, ColorBits { r, g, b }));
        assert(entries@ =~= chjc_entries(bytes@).take(k + 1));
    }
    assert(chjc_entries(bytes@).take(count as int) =~= chjc_entries(bytes@));
    Ok(ChjcHeader { entries, body_start })
}

/// Colors by face id from a container's entries and the body's faces in
/// exploration order.
pub fn resolve_chjc_colors(entries: &[(u32, ColorBits)], face_ids: &[u64]) -> (r: HashMap<
    u64,
    ColorBits,
>)
    ensures
        r@ == chjc_colors(entries@, face_ids@),
{
    let mut colormap: HashMap<u64, ColorBits> = HashMap::new();
    let n = entries.len();
    for k in 0..n
        invariant
            n == entries@.len(),
            colormap@ == chjc_colors(entries@.take(k as int), face_ids@),
    {
        let (idx, c) = entries[k];
        assert(entries@.take(k + 1).drop_last() =~= entries@.take(k as int));
        if (idx as usize) < face_ids.len() {
            colormap.insert(face_ids[idx as usize], c);
        }
    }
    assert(entries@.take(n as int) =~= entries@);
    colormap
}

/// What the writer frames, the reader reads back: the header of a container
/// gives back the entries, and the body starts right after it.
pub proof fn lemma_chjc_round_trip(e: Seq<(u32, ColorBits)>, body: Seq<u8>)
    requires
        e.len() <= u32::MAX,
        body.len() <= u64::MAX,
    ensures
        chjc_header_ok(chjc_bytes(e, body)),
        chjc_entries(chjc_bytes(e, body)) == e,
        chjc_bytes(e, body).skip(chjc_body_start(e.len() as int)) == body,
{
    let b = chjc_bytes(e, body);
    let n = e.len();
    lemma_entries_bytes_layout(e);
    let eb = entries_bytes(e);
    assert(b.take(4) =~= chjc_magic());
    assert(b.subrange(5, 9) =~= le32(n as u32));
    lemma_le32_round_trip(n as u32);
    assert(chjc_count(b) == n);
    assert(le64(body.len() as u64).len() == 8);
    assert(b.len() == 17 + 16 * n + body.len());
    assert forall|k: int| 0 <= k < n implies #[trigger] chjc_entry(b, k) == e[k] by {
        let o = 9 + 16 * k;
        let ent = e[k];
        let bytes16 = entry_bytes(ent);
        assert forall|j: int| 0 <= j < 16 implies #[trigger] b[o + j] == bytes16[j] by {
            assert(b[o + j] == eb[16 * k + j]);
        }
        assert(b.subrange(o, o + 4) =~= le32(ent.0)) by {
            assert forall|j: int| 0 <= j < 4 implies #[trigger] b.subrange(o, o + 4)[j] == le32(ent.0)[j] by {
                assert(b[o + j] == bytes16[j]);
            }
        }
        assert(b.subrange(o + 4, o + 8) =~= le32(ent.1.r)) by {
            assert forall|j: int| 0 <= j < 4 implies #[trigger] b.subrange(o + 4, o + 8)[j] == le32(ent.1.r)[j] by {
                assert(b[o + (j + 4)] == bytes16[j + 4]);
            }
        }
        assert(b.subrange(o + 8, o + 12) =~= le32(ent.1.g)) by {
            assert forall|j: int| 0 <= j < 4 implies #[trigger] b.subrange(o + 8, o + 12)[j] == le32(ent.1.g)[j] by {
                assert(b[o + (j + 8)] == bytes16[j + 8]);
            }
        }
        assert(b.subrange(o + 12, o + 16) =~= le32(ent.1.b)) by {
            assert forall|j: int| 0 <= j < 4 implies #[trigger] b.subrange(o + 12, o + 16)[j] == le32(ent.1.b)[j] by {
                assert(b[o + (j + 12)] == bytes16[j + 12]);
            }
        }
        lemma_le32_round_trip(ent.0);
        lemma_le32_round_trip(ent.1.r);
        lemma_le32_round_trip(ent.1.g);
        lemma_le32_round_trip(ent.1.b);
    }
    assert(chjc_entries(b) =~= e);
    assert(b.skip(chjc_body_start(n as int)) =~= body);
}

proof fn lemma_chjc_colors_of_entries(ids: Seq<u64>, m: Map<u64, ColorBits>, n: nat)
    requires
        n <= ids.len(),
        ids.len() <= u32::MAX + 1,
    ensures
        forall|id: u64|
            #[trigger] chjc_colors(trailer_entries(ids, m, n), ids).contains_key(id) <==> exists|i: int|
                0 <= i < n && ids[i] == id && m.contains_key(id) && #[trigger] is_last_index(ids, i),
        forall|id: u64|
            #[trigger] chjc_colors(trailer_entries(ids, m, n), ids).contains_key(id) ==> chjc_colors(
                trailer_entries(ids, m, n),
                ids,
            )[id] == m[id],
    decreases n,
{
    if n > 0 {
        lemma_chjc_colors_of_entries(ids, m, (n - 1) as nat);
        let prev = trailer_entries(ids, m, (n - 1) as nat);
        let cur = trailer_entries(ids, m, n);
        let pc = chjc_colors(prev, ids);
        let cc = chjc_colors(cur, ids);
        let i = n - 1;
        assert((i as u32) as int == i);
        if m.contains_key(ids[i]) && is_last_index(ids, i) {
            let x = ((i as u32), m[ids[i]]);
            assert(cur == prev.push(x));
            assert(prev.push(x).drop_last() =~= prev);
            assert(cc == pc.insert(ids[i], m[ids[i]]));
        } else {
            assert(cur == prev);
        }
        assert forall|id: u64| #[trigger] cc.contains_key(id) <==> exists|k: int|
            0 <= k < n && ids[k] == id && m.contains_key(id) && #[trigger] is_last_index(ids, k) by {
            if cc.contains_key(id) && !pc.contains_key(id) {
                assert(0 <= i < n && ids[i] == id && m.contains_key(id) && is_last_index(ids, i));
            }
            if exists|k: int| 0 <= k < n && ids[k] == id && m.contains_key(id) && #[trigger] is_last_index(ids, k) {
                let k = choose|k: int| 0 <= k < n && ids[k] == id && m.contains_key(id) && #[trigger] is_last_index(ids, k);
                if k < n - 1 {
                    assert(0 <= k < n - 1 && ids[k] == id && m.contains_key(id) && is_last_index(ids, k));
                }
            }
        }
    }
}

/// What a write stores, a read gives back: framing the entries for a list of
/// face ids and a color map, then reading the entries back and resolving
/// them against the same faces, yields exactly the colors of those faces.
pub proof fn lemma_chjc_colors_round_trip(ids: Seq<u64>, m: Map<u64, ColorBits>, body: Seq<u8>)
    requires
        ids.len() <= u32::MAX,
        body.len() <= u64::MAX,
    ensures
        chjc_colors(chjc_entries(chjc_bytes(trailer_entries(ids, m, ids.len()), body)), ids)
            == restricted_colors(ids, m, ids.len()),
{
    let e = trailer_entries(ids, m, ids.len());
    lemma_trailer_entries_len(ids, m, ids.len());
    lemma_chjc_round_trip(e, body);
    lemma_chjc_colors_of_entries(ids, m, ids.len());
    lemma_last_positions_cover(ids, m, chjc_colors(e, ids));
}

proof fn lemma_chjc_colors_renamed_prefix(ids: Seq<u64>, new_ids: Seq<u64>, m: Map<u64, ColorBits>, n: nat)
    requires
        n <= ids.len(),
        new_ids.len() == ids.len(),
        ids.len() <= u32::MAX + 1,
    ensures
        chjc_colors(trailer_entries(ids, m, n), new_ids) == renamed_colors(ids, new_ids, m, n),
    decreases n,
{
    if n > 0 {
        lemma_chjc_colors_renamed_prefix(ids, new_ids, m, (n - 1) as nat);
        let prev = trailer_entries(ids, m, (n - 1) as nat);
        let i = n - 1;
        assert((i as u32) as int == i);
        if m.contains_key(ids[i]) && is_last_index(ids, i) {
            let x = ((i as u32), m[ids[i]]);
            assert(prev.push(x).drop_last() =~= prev);
        }
    }
}

/// What a write stores, a read gives back under new face ids: framing the
/// entries for faces `ids`, then reading them back against the faces of the
/// decoded body, `new_ids` (the same faces in the same exploration order,
/// under the ids the kernel gives them), gives each new face the color its
/// position had in the write.
pub proof fn lemma_chjc_colors_renamed(ids: Seq<u64>, new_ids: Seq<u64>, m: Map<u64, ColorBits>, body: Seq<u8>)
    requires
        ids.len() <= u32::MAX,
        new_ids.len() == ids.len(),
        body.len() <= u64::MAX,
    ensures
        chjc_colors(chjc_entries(chjc_bytes(trailer_entries(ids, m, ids.len()), body)), new_ids)
            == renamed_colors(ids, new_ids, m, ids.len()),
{
    let e = trailer_entries(ids, m, ids.len());
    lemma_trailer_entries_len(ids, m, ids.len());
    lemma_chjc_round_trip(e, body);
    lemma_chjc_colors_renamed_prefix(ids, new_ids, m, ids.len());
}

} // verus!
