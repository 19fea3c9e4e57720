//! Index buffers that a mesh exchange writes: the segments of the edge
//! polylines and the triangles grouped by face color.
use std::collections::HashMap;
use vstd::prelude::*;

use crate::color_trailer::ColorBits;

verus! {

/// The LINES index buffer of polylines given as a point list in which
/// `breaks[k]` marks a separator: the kept points are numbered in order, and
/// every two consecutive kept points with no separator between them give a
/// segment. Returns (number of kept points, whether the last entry was a
/// kept point, the indices).
pub open spec fn edge_lines(breaks: Seq<bool>) -> (nat, bool, Seq<u32>)
    decreases breaks.len(),
{
    if breaks.len() == 0 {
        (0, false, Seq::empty())
    } else {
        let (n, has_prev, idx) = edge_lines(breaks.drop_last());
        if breaks.last() {
            (n, false, idx)
        } else {
            (n + 1, true, if has_prev {
                idx.push((n - 1) as u32).push(n as u32)
            } else {
                idx
            })
        }
    }
}

proof fn lemma_edge_lines_count(breaks: Seq<bool>)
    ensures
        edge_lines(breaks).0 <= breaks.len(),
        edge_lines(breaks).1 ==> edge_lines(breaks).0 > 0,
    decreases breaks.len(),
{
    if breaks.len() > 0 {
        lemma_edge_lines_count(breaks.drop_last());
    }
}

/// The segment indices of separator-delimited polylines.
pub fn edge_line_indices(breaks: &[bool]) -> (r: Vec<u32>)
    requires
        breaks@.len() <= u32::MAX,
    ensures
        r@ == edge_lines(breaks@).2,
{
    let mut idx: Vec<u32> = Vec::new();
    let mut count: u32 = 0;
    let mut has_prev = false;
    let n = breaks.len();
    for k in 0..n
        invariant
            n == breaks@.len(),
            n <= u32::MAX,
            edge_lines(breaks@.take(k as int)) == (count as nat, has_prev, idx@),
    {
        proof {
            lemma_edge_lines_count(breaks@.take(k as int));
            assert(breaks@.take(k + 1).drop_last() =~= breaks@.take(k as int));
        }
        if breaks[k] {
            has_prev = false;
        } else {
            if has_prev {
                idx.push(count - 1);
                idx.push(count);
            }
            count = count + 1;
            has_prev = true;
        }
    }
    assert(breaks@.take(n as int) =~= breaks@);
    idx
}

/// The color key of triangle `t`: its face's color, or `default`.
pub open spec fn triangle_key(face_ids: Seq<u64>, m: Map<u64, ColorBits>, default: ColorBits, t: int) -> ColorBits {
    if m.contains_key(face_ids[t]) {
        m[face_ids[t]]
    } else {
        default
    }
}

/// The three vertex indices of triangle `t`, as 32-bit indices.
pub open spec fn triangle_corners(indices: Seq<usize>, t: int) -> Seq<u32> {
    seq![indices[3 * t] as u32, indices[3 * t + 1] as u32, indices[3 * t + 2] as u32]
}

/// The position of the group with key `k`, searching from the back.
pub open spec fn group_position(g: Seq<(Seq<u32>, ColorBits)>, k: ColorBits) -> Option<int>
    decreases g.len(),
{
    if g.len() == 0 {
        None
    } else if g.last().1 == k {
        Some(g.len() - 1)
    } else {
        group_position(g.drop_last(), k)
    }
}

/// The triangles of a mesh grouped by color, after the first `n` triangles:
/// one group per distinct color in order of first appearance, holding the
/// corners of its triangles in order.
pub open spec fn color_groups(
    indices: Seq<usize>,
    face_ids: Seq<u64>,
    m: Map<u64, ColorBits>,
    default: ColorBits,
    n: nat,
) -> Seq<(Seq<u32>, ColorBits)>
    decreases n,
{
    if n == 0 {
        Seq::empty()
    } else {
        let g = color_groups(indices, face_ids, m, default, (n - 1) as nat);
        let k = triangle_key(face_ids, m, default, n - 1);
        let c = triangle_corners(indices, n - 1);
        match group_position(g, k) {
            Some(j) => g.update(j, (g[j].0 + c, k)),
            None => g.push((c, k)),
        }
    }
}

/// The view of groups held in vectors.
pub open spec fn groups_view(g: Seq<(Vec<u32>, ColorBits)>) -> Seq<(Seq<u32>, ColorBits)> {
    g.map_values(|p: (Vec<u32>, ColorBits)| (p.0@, p.1))
}

proof fn lemma_group_position_bound(g: Seq<(Seq<u32>, ColorBits)>, k: ColorBits)
    ensures
        group_position(g, k) matches Some(j) ==> 0 <= j < g.len() && g[j].1 == k,
    decreases g.len(),
{
    if g.len() > 0 {
        lemma_group_position_bound(g.drop_last(), k);
    }
}

fn find_group(groups: &Vec<(Vec<u32>, ColorBits)>, key: ColorBits) -> (r: Option<usize>)
    ensures
        match r {
            Some(j) => group_position(groups_view(groups@), key) == Some(j as int),
            None => group_position(groups_view(groups@), key) is None,
        },
{
    let ghost gv = groups_view(groups@);
    let mut j = groups.len();
    assert(gv.take(j as int) =~= gv);
    while j > 0
        invariant
            j <= groups@.len(),
            gv == groups_view(groups@),
            group_position(gv, key) == group_position(gv.take(j as int), key),
        decreases j,
    {
        let c = groups[j - 1].1;
        assert(gv.take(j as int).drop_last() =~= gv.take(j - 1));
        if c == key {
            return Some(j - 1);
        }
        j = j - 1;
    }
    None
}

/// Group the triangles of a mesh by face color (`default` for faces without
/// one): one group per distinct color in order of first appearance, each
/// with the 32-bit corner indices of its triangles in order.
pub fn triangle_groups(
    indices: &[usize],
    face_ids: &[u64],
    colormap: &HashMap<u64, ColorBits>,
    default: ColorBits,
) -> (r: Vec<(Vec<u32>, ColorBits)>)
    requires
        face_ids@.len() >= indices@.len() / 3,
    ensures
        groups_view(r@) == color_groups(indices@, face_ids@, colormap@, default, indices@.len() / 3),
{
    broadcast use vstd::std_specs::hash::group_hash_axioms;

    let tri_count = indices.len() / 3;
    let mut groups: Vec<(Vec<u32>, ColorBits)> = Vec::new();
    for t in 0..tri_count
        invariant
            tri_count == indices@.len() / 3,
            face_ids@.len() >= tri_count,
            groups_view(groups@) == color_groups(indices@, face_ids@, colormap@, default, t as nat),
    {
        let key = match colormap.get(&face_ids[t]) {
            Some(c) => *c,
            None => default,
        };
        assert(key == triangle_key(face_ids@, colormap@, default, t as int));
        assert(3 * t + 2 < indices@.len()) by (nonlinear_arith)
            requires
                t < tri_count,
                tri_count == indices@.len() / 3,
        ;
        assert(indices@.len() == indices.len());
        let a = indices[3 * t] as u32;
        let b = indices[3 * t + 1] as u32;
        let c = indices[3 * t + 2] as u32;
        let ghost corners = triangle_corners(indices@, t as int);
        assert(corners =~= seq![a, b, c]);
        let ghost before = groups_view(groups@);
        match find_group(&groups, key) {
            Some(j) => {
                proof {
                    lemma_group_position_bound(before, key);
                }
                let ghost old_groups = groups@;
                let mut list: Vec<u32> = Vec::new();
                std::mem::swap(&mut list, &mut groups[j].0);
                list.push(a);
                list.push(b);
                list.push(c);
                std::mem::swap(&mut list, &mut groups[j].0);
                assert(groups@.len() == old_groups.len());
                assert(groups@[j as int].0@ =~= old_groups[j as int].0@ + corners);
                assert(groups@[j as int].1 == key);
                assert(forall|i: int| 0 <= i < groups@.len() && i != j ==> groups@[i] == old_groups[i]);
                assert(groups_view(groups@) =~= before.update(j as int, (before[j as int].0 + corners, key)));
            },
            None => {
                let mut v: Vec<u32> = Vec::new();
                v.push(a);
                v.push(b);
                v.push(c);
                assert(v@ =~= corners);
                groups.push((v, key));
                assert(groups_view(groups@) =~= before.push((corners, key)));
            },
        }
    }
    groups
}

proof fn lemma_group_position_none(g: Seq<(Seq<u32>, ColorBits)>, k: ColorBits)
    ensures
        group_position(g, k) is None ==> forall|j: int| 0 <= j < g.len() ==> #[trigger] g[j].1 != k,
    decreases g.len(),
{
    if g.len() > 0 {
        lemma_group_position_none(g.drop_last(), k);
        if group_position(g, k) is None {
            assert forall|j: int| 0 <= j < g.len() implies #[trigger] g[j].1 != k by {
                if j < g.len() - 1 {
                    assert(g[j] == g.drop_last()[j]);
                }
            }
        }
    }
}

/// Triangles of one color share one group: the groups' colors are pairwise
/// distinct.
pub proof fn lemma_color_groups_distinct(
    indices: Seq<usize>,
    face_ids: Seq<u64>,
    m: Map<u64, ColorBits>,
    default: ColorBits,
    n: nat,
)
    ensures
        forall|i: int, j: int|
            0 <= i < j < color_groups(indices, face_ids, m, default, n).len() ==> #[trigger] color_groups(
                indices,
                face_ids,
                m,
                default,
                n,
            )[i].1 != #[trigger] color_groups(indices, face_ids, m, default, n)[j].1,
    decreases n,
{
    if n > 0 {
        lemma_color_groups_distinct(indices, face_ids, m, default, (n - 1) as nat);
        let g = color_groups(indices, face_ids, m, default, (n - 1) as nat);
        let k = triangle_key(face_ids, m, default, n - 1);
        lemma_group_position_bound(g, k);
        lemma_group_position_none(g, k);
        let r = color_groups(indices, face_ids, m, default, n);
        assert forall|i: int, j: int| 0 <= i < j < r.len() implies #[trigger] r[i].1 != #[trigger] r[j].1 by {
            if group_position(g, k) is None {
                if j == g.len() {
                    assert(g[i].1 != k);
                } else {
                    assert(g[i].1 != g[j].1);
                }
            } else {
                assert(r[i].1 == g[i].1);
                assert(r[j].1 == g[j].1);
            }
        }
    }
}

/// Every segment index names one of the kept points, so the LINES accessor
/// never points past the position buffer.
pub proof fn lemma_edge_lines_in_range(breaks: Seq<bool>)
    ensures
        forall|i: int| 0 <= i < edge_lines(breaks).2.len() ==> #[trigger] edge_lines(breaks).2[i] < edge_lines(breaks).0,
    decreases breaks.len(),
{
    if breaks.len() > 0 {
        let p = breaks.drop_last();
        lemma_edge_lines_in_range(p);
        lemma_edge_lines_count(p);
        let (n, hp, idx) = edge_lines(p);
        if !breaks.last() && hp {
            let r = edge_lines(breaks).2;
            assert(r =~= idx.push((n - 1) as u32).push(n as u32));
            assert forall|i: int| 0 <= i < r.len() implies #[trigger] r[i] < n + 1 by {
                if i < idx.len() {
                    assert(r[i] == idx[i]);
                } else if i == idx.len() {
                    assert(r[i] == (n - 1) as u32);
                } else {
                    assert(r[i] == n as u32);
                }
            }
        }
    }
}

} // verus!
