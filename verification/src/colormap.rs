//! Per-face color maps keyed by kernel shape identifiers, and how they follow
//! the faces through operations that rebuild topology.
use std::collections::HashMap;
use vstd::prelude::*;

verus! {

broadcast use vstd::std_specs::hash::group_hash_axioms;

/// Colors of a boolean result: for each `[post, src]` pair of the face
/// history (pairs taken in order; a trailing odd entry is ignored), the result
/// face `post` takes the color of `src` from the first input, else from the
/// second; later pairs overwrite earlier ones.
pub open spec fn merged_history_colors<V>(h: Seq<u64>, a: Map<u64, V>, b: Map<u64, V>, n: nat) -> Map<
    u64,
    V,
>
    decreases n,
{
    if n == 0 {
        Map::empty()
    } else {
        let m = merged_history_colors(h, a, b, (n - 1) as nat);
        let post = h[2 * (n - 1)];
        let src = h[2 * (n - 1) + 1];
        if a.contains_key(src) {
            m.insert(post, a[src])
        } else if b.contains_key(src) {
            m.insert(post, b[src])
        } else {
            m
        }
    }
}

/// Whether pair `j` of a face history gives the result face `k` a color from
/// one of the inputs.
pub open spec fn history_source<V>(h: Seq<u64>, a: Map<u64, V>, b: Map<u64, V>, j: int, k: u64) -> bool {
    h[2 * j] == k && (a.contains_key(h[2 * j + 1]) || b.contains_key(h[2 * j + 1]))
}

/// The color that pair `j` of a face history carries: its source face's color
/// in the first input where it has one, else in the second.
pub open spec fn history_color<V>(h: Seq<u64>, a: Map<u64, V>, b: Map<u64, V>, j: int) -> V {
    if a.contains_key(h[2 * j + 1]) {
        a[h[2 * j + 1]]
    } else {
        b[h[2 * j + 1]]
    }
}

/// A result face of a boolean operation is colored exactly when some pair of
/// the history gives it a colored source face, and it takes the color of the
/// last such pair.
pub proof fn lemma_history_colors_last_wins<V>(h: Seq<u64>, a: Map<u64, V>, b: Map<u64, V>, n: nat)
    requires
        2 * n <= h.len(),
    ensures
        forall|k: u64|
            #[trigger] merged_history_colors(h, a, b, n).contains_key(k) <==> exists|j: int|
                0 <= j < n && history_source(h, a, b, j, k),
        forall|j: int, k: u64|
            0 <= j < n && #[trigger] history_source(h, a, b, j, k) && (forall|i: int|
                j < i < n ==> !history_source(h, a, b, i, k)) ==> merged_history_colors(h, a, b, n)[k]
                == history_color(h, a, b, j),
    decreases n,
{
    if n > 0 {
        let p = n - 1;
        lemma_history_colors_last_wins(h, a, b, p as nat);
        let prev = merged_history_colors(h, a, b, p as nat);
        let r = merged_history_colors(h, a, b, n);
        assert forall|k: u64| #[trigger] r.contains_key(k) <==> exists|j: int|
            0 <= j < n && history_source(h, a, b, j, k) by {
            if prev.contains_key(k) {
                let j = choose|j: int| 0 <= j < p && history_source(h, a, b, j, k);
                assert(0 <= j < n && history_source(h, a, b, j, k));
            } else if r.contains_key(k) {
                assert(history_source(h, a, b, p, k));
            }
            if exists|j: int| 0 <= j < n && history_source(h, a, b, j, k) {
                let j = choose|j: int| 0 <= j < n && history_source(h, a, b, j, k);
                if j < p {
                    assert(prev.contains_key(k));
                } else {
                    assert(history_source(h, a, b, p, k));
                }
            }
        }
        assert forall|j: int, k: u64|
            0 <= j < n && #[trigger] history_source(h, a, b, j, k) && (forall|i: int|
                j < i < n ==> !history_source(h, a, b, i, k)) implies r[k] == history_color(
            h,
            a,
            b,
            j,
        ) by {
            if j < p {
                assert(!history_source(h, a, b, p, k));
            }
        }
    }
}

/// Colors carried across a rebuild that keeps the face order: the `i`-th new
/// face takes the color of the `i`-th old face (pairs up to the shorter list).
pub open spec fn remapped_colors<V>(old_ids: Seq<u64>, new_ids: Seq<u64>, m: Map<u64, V>, n: nat) -> Map<
    u64,
    V,
>
    decreases n,
{
    if n == 0 {
        Map::empty()
    } else {
        let r = remapped_colors(old_ids, new_ids, m, (n - 1) as nat);
        let o = old_ids[n - 1];
        if m.contains_key(o) {
            r.insert(new_ids[n - 1], m[o])
        } else {
            r
        }
    }
}

/// Across a rebuild that keeps the face order, a new face is colored exactly
/// when it stands at the position of a colored old face, and it takes the
/// color of the last such position.
pub proof fn lemma_remapped_colors_by_position<V>(old_ids: Seq<u64>, new_ids: Seq<u64>, m: Map<u64, V>, n: nat)
    requires
        n <= old_ids.len(),
        n <= new_ids.len(),
    ensures
        forall|k: u64|
            #[trigger] remapped_colors(old_ids, new_ids, m, n).contains_key(k) <==> exists|j: int|
                0 <= j < n && new_ids[j] == k && m.contains_key(old_ids[j]),
        forall|j: int|
            0 <= j < n && m.contains_key(#[trigger] old_ids[j]) && (forall|i: int|
                j < i < n ==> !(new_ids[i] == new_ids[j] && m.contains_key(old_ids[i])))
                ==> remapped_colors(old_ids, new_ids, m, n)[new_ids[j]] == m[old_ids[j]],
    decreases n,
{
    if n > 0 {
        let p = n - 1;
        lemma_remapped_colors_by_position(old_ids, new_ids, m, p as nat);
        let prev = remapped_colors(old_ids, new_ids, m, p as nat);
        let r = remapped_colors(old_ids, new_ids, m, n);
        assert forall|k: u64| #[trigger] r.contains_key(k) <==> exists|j: int|
            0 <= j < n && new_ids[j] == k && m.contains_key(old_ids[j]) by {
            if prev.contains_key(k) {
                let j = choose|j: int| 0 <= j < p && new_ids[j] == k && m.contains_key(old_ids[j]);
                assert(0 <= j < n && new_ids[j] == k && m.contains_key(old_ids[j]));
            } else if r.contains_key(k) {
                assert(new_ids[p] == k && m.contains_key(old_ids[p]));
            }
            if exists|j: int| 0 <= j < n && new_ids[j] == k && m.contains_key(old_ids[j]) {
                let j = choose|j: int| 0 <= j < n && new_ids[j] == k && m.contains_key(old_ids[j]);
                if j < p {
                    assert(prev.contains_key(k));
                }
            }
        }
        assert forall|j: int|
            0 <= j < n && m.contains_key(#[trigger] old_ids[j]) && (forall|i: int|
                j < i < n ==> !(new_ids[i] == new_ids[j] && m.contains_key(old_ids[i])))
                implies r[new_ids[j]] == m[old_ids[j]] by {
            if j < p {
                assert(!(new_ids[p] == new_ids[j] && m.contains_key(old_ids[p])));
            }
        }
    }
}

/// Colors carried across a cleaning pass: for each `[new, old]` pair of the
/// mapping in order, `new` takes the color of `old` unless it already has one.
pub open spec fn cleaned_colors<V>(mapping: Seq<u64>, m: Map<u64, V>, n: nat) -> Map<u64, V>
    decreases n,
{
    if n == 0 {
        Map::empty()
    } else {
        let r = cleaned_colors(mapping, m, (n - 1) as nat);
        let new_id = mapping[2 * (n - 1)];
        let old_id = mapping[2 * (n - 1) + 1];
        if m.contains_key(old_id) && !r.contains_key(new_id) {
            r.insert(new_id, m[old_id])
        } else {
            r
        }
    }
}

/// The colors of the listed faces only.
pub open spec fn restricted_colors<V>(ids: Seq<u64>, m: Map<u64, V>, n: nat) -> Map<u64, V>
    decreases n,
{
    if n == 0 {
        Map::empty()
    } else {
        let r = restricted_colors(ids, m, (n - 1) as nat);
        if m.contains_key(ids[n - 1]) {
            r.insert(ids[n - 1], m[ids[n - 1]])
        } else {
            r
        }
    }
}

/// Colors of a boolean result from the face history and the inputs' colors.
pub fn merge_colormaps<V: Copy>(
    history: &[u64],
    colormap_a: &HashMap<u64, V>,
    colormap_b: &HashMap<u64, V>,
) -> (r: HashMap<u64, V>)
    ensures
        r@ == merged_history_colors(history@, colormap_a@, colormap_b@, (history@.len() / 2) as nat),
{
    let mut result: HashMap<u64, V> = HashMap::new();
    let pairs = history.len() / 2;
    for k in 0..pairs
        invariant
            pairs == history@.len() / 2,
            2 * pairs <= history@.len(),
            history@.len() == history.len(),
            result@ == merged_history_colors(history@, colormap_a@, colormap_b@, k as nat),
    {
        let post = history[2 * k];
        let src = history[2 * k + 1];
        match colormap_a.get(&src) {
            Some(c) => {
                result.insert(post, *c);
            },
            None => match colormap_b.get(&src) {
                Some(c) => {
                    result.insert(post, *c);
                },
                None => {},
            },
        }
    }
    result
}

/// Colors of a boolean result whose history comes in one `[post, src]` list
/// per side: each side's result faces take that side's colors, and the
/// tool side (`from_b`) wins where both color the same result face.
pub fn merge_side_colormaps<V: Copy>(
    from_a: &[u64],
    from_b: &[u64],
    colormap_a: &HashMap<u64, V>,
    colormap_b: &HashMap<u64, V>,
) -> (r: HashMap<u64, V>)
    requires
        from_a@.len() % 2 == 0,
        from_b@.len() % 2 == 0,
    ensures
        r@ == merged_history_colors(from_a@, colormap_a@, Map::empty(), (from_a@.len() / 2) as nat).union_prefer_right(
            merged_history_colors(from_b@, colormap_b@, Map::empty(), (from_b@.len() / 2) as nat),
        ),
{
    let mut result: HashMap<u64, V> = HashMap::new();
    let pa = from_a.len() / 2;
    for k in 0..pa
        invariant
            pa == from_a@.len() / 2,
            2 * pa <= from_a@.len(),
            from_a@.len() == from_a.len(),
            result@ == merged_history_colors(from_a@, colormap_a@, Map::empty(), k as nat),
    {
        match colormap_a.get(&from_a[2 * k + 1]) {
            Some(c) => {
                result.insert(from_a[2 * k], *c);
            },
            None => {},
        }
    }
    let ghost side_a = result@;
    let pb = from_b.len() / 2;
    for k in 0..pb
        invariant
            pb == from_b@.len() / 2,
            2 * pb <= from_b@.len(),
            from_b@.len() == from_b.len(),
            result@ == side_a.union_prefer_right(merged_history_colors(from_b@, colormap_b@, Map::empty(), k as nat)),
    {
        let ghost before = merged_history_colors(from_b@, colormap_b@, Map::empty(), k as nat);
        match colormap_b.get(&from_b[2 * k + 1]) {
            Some(c) => {
                result.insert(from_b[2 * k], *c);
                assert(result@ =~= side_a.union_prefer_right(before.insert(from_b@[2 * k as int], *c)));
            },
            None => {},
        }
    }
    result
}

/// Colors carried by face order across a rebuild of the same shape.
pub fn remap_colormap_by_order<V: Copy>(
    old_ids: &[u64],
    new_ids: &[u64],
    old_colormap: &HashMap<u64, V>,
) -> (r: HashMap<u64, V>)
    ensures
        r@ == remapped_colors(
            old_ids@,
            new_ids@,
            old_colormap@,
            (if old_ids@.len() < new_ids@.len() {
                old_ids@.len()
            } else {
                new_ids@.len()
            }) as nat,
        ),
{
    let mut colormap: HashMap<u64, V> = HashMap::new();
    let n = if old_ids.len() < new_ids.len() {
        old_ids.len()
    } else {
        new_ids.len()
    };
    for i in 0..n
        invariant
            n <= old_ids@.len(),
            n <= new_ids@.len(),
            colormap@ == remapped_colors(old_ids@, new_ids@, old_colormap@, i as nat),
    {
        match old_colormap.get(&old_ids[i]) {
            Some(c) => {
                colormap.insert(new_ids[i], *c);
            },
            None => {},
        }
    }
    colormap
}

/// Colors carried across a cleaning pass; the first color for a new face wins.
pub fn clean_colormap<V: Copy>(mapping: &[u64], colormap: &HashMap<u64, V>) -> (r: HashMap<u64, V>)
    ensures
        r@ == cleaned_colors(mapping@, colormap@, (mapping@.len() / 2) as nat),
{
    let mut result: HashMap<u64, V> = HashMap::new();
    let pairs = mapping.len() / 2;
    for k in 0..pairs
        invariant
            pairs == mapping@.len() / 2,
            2 * pairs <= mapping@.len(),
            mapping@.len() == mapping.len(),
            result@ == cleaned_colors(mapping@, colormap@, k as nat),
    {
        let new_id = mapping[2 * k];
        let old_id = mapping[2 * k + 1];
        match colormap.get(&old_id) {
            Some(c) => {
                if !result.contains_key(&new_id) {
                    result.insert(new_id, *c);
                }
            },
            None => {},
        }
    }
    result
}

/// Whether pair `j` of a cleaning mapping maps the new face `k` from an old
/// face that has a color.
pub open spec fn cleaning_source<V>(mapping: Seq<u64>, m: Map<u64, V>, j: int, k: u64) -> bool {
    mapping[2 * j] == k && m.contains_key(mapping[2 * j + 1])
}

/// Across a cleaning pass a new face is colored exactly when some pair maps
/// it from a colored old face, and it takes the color of the first such pair.
pub proof fn lemma_cleaned_colors_first_wins<V>(mapping: Seq<u64>, m: Map<u64, V>, n: nat)
    requires
        2 * n <= mapping.len(),
    ensures
        forall|k: u64|
            #[trigger] cleaned_colors(mapping, m, n).contains_key(k) <==> exists|j: int|
                0 <= j < n && cleaning_source(mapping, m, j, k),
        forall|j: int, k: u64|
            0 <= j < n && #[trigger] cleaning_source(mapping, m, j, k) && (forall|i: int|
                0 <= i < j ==> !cleaning_source(mapping, m, i, k)) ==> cleaned_colors(mapping, m, n)[k]
                == m[mapping[2 * j + 1]],
    decreases n,
{
    if n > 0 {
        let p = n - 1;
        lemma_cleaned_colors_first_wins(mapping, m, p as nat);
        let prev = cleaned_colors(mapping, m, p as nat);
        let r = cleaned_colors(mapping, m, n);
        assert forall|k: u64| #[trigger] r.contains_key(k) <==> exists|j: int|
            0 <= j < n && cleaning_source(mapping, m, j, k) by {
            if prev.contains_key(k) {
                let j = choose|j: int| 0 <= j < p && cleaning_source(mapping, m, j, k);
                assert(0 <= j < n && cleaning_source(mapping, m, j, k));
            } else if r.contains_key(k) {
                assert(cleaning_source(mapping, m, p, k));
            }
            if exists|j: int| 0 <= j < n && cleaning_source(mapping, m, j, k) {
                let j = choose|j: int| 0 <= j < n && cleaning_source(mapping, m, j, k);
                if j < p {
                    assert(prev.contains_key(k));
                } else {
                    assert(cleaning_source(mapping, m, p, k));
                }
            }
        }
        assert forall|j: int, k: u64|
            0 <= j < n && #[trigger] cleaning_source(mapping, m, j, k) && (forall|i: int|
                0 <= i < j ==> !cleaning_source(mapping, m, i, k)) implies r[k] == m[mapping[2 * j
            + 1]] by {
            if j < p {
                assert(prev.contains_key(k));
            } else {
                assert(!prev.contains_key(k));
            }
        }
    }
}

/// The colors of the given faces only.
pub fn restrict_colormap<V: Copy>(ids: &[u64], colormap: &HashMap<u64, V>) -> (r: HashMap<u64, V>)
    ensures
        r@ == restricted_colors(ids@, colormap@, ids@.len()),
{
    let mut result: HashMap<u64, V> = HashMap::new();
    let n = ids.len();
    for i in 0..n
        invariant
            n == ids@.len(),
            result@ == restricted_colors(ids@, colormap@, i as nat),
    {
        match colormap.get(&ids[i]) {
            Some(c) => {
                result.insert(ids[i], *c);
            },
            None => {},
        }
    }
    result
}

/// The restricted map holds exactly the colors of the listed faces.
pub proof fn lemma_restricted_colors<V>(ids: Seq<u64>, m: Map<u64, V>, n: nat)
    requires
        n <= ids.len(),
    ensures
        forall|id: u64|
            #[trigger] restricted_colors(ids, m, n).contains_key(id) <==> (m.contains_key(id) && exists|
                i: int,
            | 0 <= i < n && ids[i] == id),
        forall|id: u64|
            #[trigger] restricted_colors(ids, m, n).contains_key(id) ==> restricted_colors(
                ids,
                m,
                n,
            )[id] == m[id],
    decreases n,
{
    if n > 0 {
        lemma_restricted_colors(ids, m, (n - 1) as nat);
        let r = restricted_colors(ids, m, n);
        assert forall|id: u64| #[trigger] r.contains_key(id) <==> (m.contains_key(id) && exists|i: int|
            0 <= i < n && ids[i] == id) by {
            if m.contains_key(id) && (exists|i: int| 0 <= i < n && ids[i] == id) {
                let i = choose|i: int| 0 <= i < n && ids[i] == id;
                if i < n - 1 {
                    assert(exists|j: int| 0 <= j < n - 1 && ids[j] == id);
                }
            }
            if restricted_colors(ids, m, (n - 1) as nat).contains_key(id) {
                let i = choose|i: int| 0 <= i < n - 1 && ids[i] == id;
                assert(0 <= i < n && ids[i] == id);
            }
        }
        assert forall|id: u64| #[trigger] r.contains_key(id) implies r[id] == m[id] by {
            if id != ids[n - 1] {
                assert(restricted_colors(ids, m, (n - 1) as nat).contains_key(id));
            }
        }
    }
}

/// One solid of a meshing: its identity, its faces and its color map (which
/// may hold a color for the solid itself and colors for its faces).
#[derive(Debug)]
pub struct SolidColors<V> {
    pub id: u64,
    pub faces: Vec<u64>,
    pub colormap: HashMap<u64, V>,
}

/// The face colors of meshed solids, taken in order: a solid's own color
/// goes to each of its faces, then its face colors (the more specific style)
/// are laid over; later solids overwrite earlier ones.
pub open spec fn expanded_colors<V>(solids: Seq<SolidColors<V>>) -> Map<u64, V>
    decreases solids.len(),
{
    if solids.len() == 0 {
        Map::empty()
    } else {
        let acc = expanded_colors(solids.drop_last());
        let s = solids.last();
        let m = s.colormap@;
        let with_solid = if m.contains_key(s.id) {
            acc.union_prefer_right(Map::new(|f: u64| s.faces@.contains(f), |f: u64| m[s.id]))
        } else {
            acc
        };
        with_solid.union_prefer_right(m)
    }
}

/// The color that face `f` gets from the first `n` solids, if any.
pub open spec fn face_color<V>(solids: Seq<SolidColors<V>>, n: int, f: u64) -> Option<V>
    decreases n,
{
    if n <= 0 {
        None
    } else {
        let s = solids[n - 1];
        let m = s.colormap@;
        if m.contains_key(f) {
            Some(m[f])
        } else if m.contains_key(s.id) && s.faces@.contains(f) {
            Some(m[s.id])
        } else {
            face_color(solids, n - 1, f)
        }
    }
}

proof fn lemma_face_color<V>(solids: Seq<SolidColors<V>>, f: u64)
    ensures
        expanded_colors(solids).contains_key(f) <==> face_color(solids, solids.len() as int, f) is Some,
        expanded_colors(solids).contains_key(f) ==> face_color(solids, solids.len() as int, f)
            == Some(expanded_colors(solids)[f]),
    decreases solids.len(),
{
    if solids.len() > 0 {
        let p = solids.drop_last();
        lemma_face_color(p, f);
        assert forall|k: int| 0 <= k < p.len() implies p[k] == solids[k] by {}
        lemma_face_color_prefix(solids, p, p.len() as int, f);
    }
}

proof fn lemma_face_color_prefix<V>(a: Seq<SolidColors<V>>, b: Seq<SolidColors<V>>, n: int, f: u64)
    requires
        n <= b.len(),
        n <= a.len(),
        forall|k: int| 0 <= k < n ==> a[k] == b[k],
    ensures
        face_color(a, n, f) == face_color(b, n, f),
    decreases n,
{
    if n > 0 {
        lemma_face_color_prefix(a, b, n - 1, f);
    }
}

fn contains_face(faces: &Vec<u64>, f: u64) -> (r: bool)
    ensures
        r == faces@.contains(f),
{
    let n = faces.len();
    for i in 0..n
        invariant
            n == faces@.len(),
            forall|k: int| 0 <= k < i ==> faces@[k] != f,
    {
        if faces[i] == f {
            assert(faces@[i as int] == f);
            return true;
        }
    }
    false
}

/// The colors of the meshed faces `face_ids`, from the meshed solids: each
/// face takes its expanded color (see `expanded_colors`), uncolored faces
/// are left out.
pub fn mesh_face_colors<V: Copy>(solids: &[SolidColors<V>], face_ids: &[u64]) -> (r: HashMap<u64, V>)
    ensures
        r@ == restricted_colors(face_ids@, expanded_colors(solids@), face_ids@.len()),
{
    let mut result: HashMap<u64, V> = HashMap::new();
    let nf = face_ids.len();
    for i in 0..nf
        invariant
            nf == face_ids@.len(),
            result@ == restricted_colors(face_ids@, expanded_colors(solids@), i as nat),
    {
        let f = face_ids[i];
        let mut found: Option<V> = None;
        let ns = solids.len();
        for k in 0..ns
            invariant
                ns == solids@.len(),
                found == face_color(solids@, k as int, f),
        {
            let s = &solids[k];
            match s.colormap.get(&f) {
                Some(c) => {
                    found = Some(*c);
                },
                None => {
                    match s.colormap.get(&s.id) {
                        Some(c) => {
                            if contains_face(&s.faces, f) {
                                found = Some(*c);
                            }
                        },
                        None => {},
                    }
                },
            }
        }
        proof {
            lemma_face_color(solids@, f);
        }
        match found {
            Some(c) => {
                result.insert(f, c);
            },
            None => {},
        }
    }
    result
}

/// Lay the colors of `source` over `target`: every key of `source` takes its
/// color from `source`, the other keys of `target` keep theirs.
pub fn extend_colormap<V: Copy>(target: &mut HashMap<u64, V>, source: &HashMap<u64, V>)
    ensures
        final(target)@ == old(target)@.union_prefer_right(source@),
{
    let ghost base = target@;
    let ghost mut seen: Set<u64> = Set::empty();
    for k in it: source.keys()
        invariant
            it.seq().unref().to_set() == source@.dom(),
            seen == Set::new(|key: u64| exists|j: int| 0 <= j < it.index() && *it.seq()[j] == key),
            it.index() == it.seq().len() ==> seen == source@.dom(),
            forall|key: u64| #[trigger] target@.contains_key(key) <==> (base.contains_key(key) || seen.contains(key)),
            forall|key: u64| seen.contains(key) ==> #[trigger] target@[key] == source@[key],
            forall|key: u64| base.contains_key(key) && !seen.contains(key) ==> #[trigger] target@[key] == base[key],
    {
        match source.get(k) {
            Some(c) => {
                target.insert(*k, *c);
            },
            None => {},
        }
        proof {
            seen = seen.insert(*k);
        }
        proof {
            let n = it.index() + 1;
            assert(seen =~= Set::new(|key: u64| exists|j: int| 0 <= j < n && *it.seq()[j] == key)) by {
                assert forall|key: u64| seen.contains(key) implies exists|j: int|
                    0 <= j < n && *it.seq()[j] == key by {
                    if key == *k {
                        assert(0 <= it.index() < n && *it.seq()[it.index() as int] == key);
                    } else {
                        let j = choose|j: int| 0 <= j < it.index() && *it.seq()[j] == key;
                        assert(0 <= j < n && *it.seq()[j] == key);
                    }
                }
                assert forall|key: u64| (exists|j: int| 0 <= j < n && *it.seq()[j] == key) implies seen.contains(key) by {
                    let j = choose|j: int| 0 <= j < n && *it.seq()[j] == key;
                    if j < it.index() {
                        assert(0 <= j < it.index() && *it.seq()[j] == key);
                    }
                }
            }
            assert forall|key: u64| n == it.seq().len() && source@.dom().contains(key) implies seen.contains(key) by {
                assert(it.seq().unref().to_set().contains(key));
                assert(it.seq().unref().contains(key));
                let j = choose|j: int| 0 <= j < it.seq().unref().len() && it.seq().unref()[j] == key;
                assert(*it.seq()[j] == key);
                assert(exists|j: int| 0 <= j < n && *it.seq()[j] == key);
            }
            assert forall|key: u64| seen.contains(key) implies source@.dom().contains(key) by {
                let j = choose|j: int| 0 <= j < n && *it.seq()[j] == key;
                assert(it.seq().unref()[j] == key);
                assert(it.seq().unref().contains(key));
            }
            assert(n == it.seq().len() ==> seen =~= source@.dom());
        }
    }
    assert(target@ =~= base.union_prefer_right(source@));
}

/// The maps laid over each other in order: later maps win.
pub open spec fn merged_all<V>(maps: Seq<Map<u64, V>>) -> Map<u64, V>
    decreases maps.len(),
{
    if maps.len() == 0 {
        Map::empty()
    } else {
        merged_all(maps.drop_last()).union_prefer_right(maps.last())
    }
}

/// In maps laid over each other, an id is colored exactly when some map
/// colors it, and it keeps the color of the last map that does.
pub proof fn lemma_merged_all_last_wins<V>(maps: Seq<Map<u64, V>>)
    ensures
        forall|k: u64|
            #[trigger] merged_all(maps).contains_key(k) <==> exists|i: int|
                0 <= i < maps.len() && maps[i].contains_key(k),
        forall|i: int, k: u64|
            0 <= i < maps.len() && #[trigger] maps[i].contains_key(k) && (forall|j: int|
                i < j < maps.len() ==> !maps[j].contains_key(k)) ==> merged_all(maps)[k] == maps[i][k],
    decreases maps.len(),
{
    if maps.len() > 0 {
        let front = maps.drop_last();
        let p = maps.len() - 1;
        lemma_merged_all_last_wins(front);
        let r = merged_all(maps);
        assert forall|k: u64| #[trigger] r.contains_key(k) <==> exists|i: int|
            0 <= i < maps.len() && maps[i].contains_key(k) by {
            if merged_all(front).contains_key(k) {
                let i = choose|i: int| 0 <= i < front.len() && front[i].contains_key(k);
                assert(maps[i] == front[i]);
            }
            if exists|i: int| 0 <= i < maps.len() && maps[i].contains_key(k) {
                let i = choose|i: int| 0 <= i < maps.len() && maps[i].contains_key(k);
                if i < p {
                    assert(front[i] == maps[i]);
                    assert(merged_all(front).contains_key(k));
                }
            }
        }
        assert forall|i: int, k: u64|
            0 <= i < maps.len() && #[trigger] maps[i].contains_key(k) && (forall|j: int|
                i < j < maps.len() ==> !maps[j].contains_key(k)) implies r[k] == maps[i][k] by {
            if i < p {
                assert(!maps[p].contains_key(k));
                assert(front[i] == maps[i]);
                assert forall|j: int| i < j < front.len() implies !front[j].contains_key(k) by {
                    assert(front[j] == maps[j]);
                }
            }
        }
    }
}

/// The views of a list of color maps.
pub open spec fn maps_view<V>(maps: Seq<HashMap<u64, V>>) -> Seq<Map<u64, V>> {
    maps.map_values(|m: HashMap<u64, V>| m@)
}

/// The color maps of several shapes merged into one; where two maps color
/// the same id, the later map wins.
pub fn merge_all_colormaps<V: Copy>(maps: &[HashMap<u64, V>]) -> (r: HashMap<u64, V>)
    ensures
        r@ == merged_all(maps_view(maps@)),
{
    let mut merged: HashMap<u64, V> = HashMap::new();
    let n = maps.len();
    for i in 0..n
        invariant
            n == maps@.len(),
            merged@ == merged_all(maps_view(maps@).take(i as int)),
    {
        extend_colormap(&mut merged, &maps[i]);
        assert(maps_view(maps@).take(i + 1).drop_last() =~= maps_view(maps@).take(i as int));
    }
    assert(maps_view(maps@).take(n as int) =~= maps_view(maps@));
    merged
}

} // verus!
