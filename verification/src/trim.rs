//! Structural checks of exact B-spline exchange data: knot vectors, control
//! grids, curves and the ordered trim topology of a face.
//!
//! The geometry itself (finiteness of coordinates, strictly increasing knots,
//! equal parameter ranges) is judged where the floating-point data lives; the
//! layouts below carry those judgements as booleans, next to the counts and
//! indices that the validation reads.
use vstd::prelude::*;

use crate::error::Error;
use crate::text::{decimal, push_decimal};

verus! {

/// Orientation of one edge occurrence inside an ordered trim loop.
#[derive(Debug, Clone, Copy, PartialEq, Eq, Structural)]
pub enum TrimOrientation {
    Forward,
    Reversed,
}

/// One parametric axis of a B-spline as its validation reads it.
#[derive(Debug)]
pub struct KnotAxis {
    pub degree: u32,
    /// Number of distinct knots.
    pub knot_count: usize,
    /// The knots are finite and strictly increasing.
    pub knots_increasing: bool,
    pub multiplicities: Vec<u32>,
    pub periodic: bool,
}

/// The weights of a rational B-spline as their validation reads them.
#[derive(Debug, Clone, Copy, PartialEq, Eq, Structural)]
pub struct WeightSummary {
    pub count: usize,
    /// Every weight is finite and positive.
    pub finite_positive: bool,
}

/// A B-spline curve (in model or parameter space) as its validation reads it.
#[derive(Debug)]
pub struct CurveLayout {
    pub control_count: usize,
    /// Every control point is finite.
    pub points_finite: bool,
    pub weights: Option<WeightSummary>,
    pub axis: KnotAxis,
    /// The parameter range is finite and increasing.
    pub range_increasing: bool,
}

/// A tensor-product B-spline surface as its validation reads it.
#[derive(Debug)]
pub struct SurfaceLayout {
    pub u_count: usize,
    pub v_count: usize,
    pub control_count: usize,
    pub points_finite: bool,
    pub weights: Option<WeightSummary>,
    pub u: KnotAxis,
    pub v: KnotAxis,
}

/// One use of a 3D edge in a trim loop.
#[derive(Debug)]
pub struct TrimUseLayout {
    pub edge: usize,
    pub orientation: TrimOrientation,
    pub pcurve: CurveLayout,
    /// The p-curve shares the parameter range of the 3D edge it uses.
    pub range_matches: bool,
}

/// A trimmed B-spline face: surface, unique 3D edges and ordered loops
/// (outer loop first).
#[derive(Debug)]
pub struct TrimmedFaceLayout {
    pub surface: SurfaceLayout,
    pub edges: Vec<CurveLayout>,
    pub loops: Vec<Vec<TrimUseLayout>>,
    /// The trim tolerance is finite and positive.
    pub tolerance_positive: bool,
}

/// The reason carried by a check's result, if it failed.
pub open spec fn reason_of(r: Result<(), String>) -> Option<Seq<char>> {
    match r {
        Ok(_) => None,
        Err(m) => Some(m@),
    }
}

/// Sum of the multiplicities.
pub open spec fn seq_sum(s: Seq<u32>) -> nat
    decreases s.len(),
{
    if s.len() == 0 {
        0
    } else {
        seq_sum(s.drop_last()) + s.last() as nat
    }
}

/// A multiplicity lies in `1..=degree + 1`.
pub open spec fn multiplicity_ok(m: u32, degree: u32) -> bool {
    1 <= m && m <= degree + 1
}

/// `degree + 1` is representable once the degree is below the control count.
pub open spec fn axis_fits(control_count: usize, a: KnotAxis) -> bool {
    a.degree < u32::MAX || control_count <= u32::MAX
}

/// Why an axis with `control_count` control points along it is invalid.
pub open spec fn axis_failure(name: Seq<char>, control_count: nat, a: KnotAxis) -> Option<Seq<char>> {
    let m = a.multiplicities@;
    let expected = control_count + a.degree + 1;
    if a.degree == 0 || a.degree >= control_count {
        Some(name + " degree must be in 1.."@ + decimal(control_count))
    } else if a.knot_count < 2 || a.knot_count != m.len() {
        Some(name + " knots and multiplicities must have the same length of at least 2"@)
    } else if !a.knots_increasing {
        Some(name + " knots must be finite and strictly increasing"@)
    } else if !(forall|i: int| 0 <= i < m.len() ==> #[trigger] multiplicity_ok(m[i], a.degree)) {
        Some(name + " multiplicities must be in 1..="@ + decimal((a.degree + 1) as nat))
    } else if a.periodic {
        None
    } else if expected > usize::MAX {
        Some(name + " knot count overflow"@)
    } else if seq_sum(m) > usize::MAX {
        Some(name + " multiplicity sum overflow"@)
    } else if seq_sum(m) != expected {
        Some(
            name + " multiplicities must sum to "@ + decimal(expected as nat) + ", got "@ + decimal(
                seq_sum(m),
            ),
        )
    } else {
        None
    }
}

/// Why a curve's data is invalid.
pub open spec fn curve_failure(name: Seq<char>, c: CurveLayout) -> Option<Seq<char>> {
    if c.control_count < 2 {
        Some(name + " must contain at least two control points"@)
    } else if !c.points_finite {
        Some(name + " control points must be finite"@)
    } else if c.weights is Some && c.weights->0.count != c.control_count {
        Some(
            name + " weight count must be "@ + decimal(c.control_count as nat) + ", got "@ + decimal(
                c.weights->0.count as nat,
            ),
        )
    } else if c.weights is Some && !c.weights->0.finite_positive {
        Some(name + " weights must be finite and positive"@)
    } else if axis_failure(name, c.control_count as nat, c.axis) is Some {
        axis_failure(name, c.control_count as nat, c.axis)
    } else if !c.range_increasing {
        Some(name + " parameter range must be finite and increasing"@)
    } else {
        None
    }
}

/// Why a surface's data is invalid.
pub open spec fn surface_failure(s: SurfaceLayout) -> Option<Seq<char>> {
    let count = s.u_count * s.v_count;
    if count > usize::MAX {
        Some("control grid dimensions overflow"@)
    } else if s.u_count < 2 || s.v_count < 2 {
        Some("control grid dimensions must both be at least 2"@)
    } else if s.control_count != count {
        Some(
            "control point count must be "@ + decimal(count as nat) + ", got "@ + decimal(
                s.control_count as nat,
            ),
        )
    } else if !s.points_finite {
        Some("control points must be finite"@)
    } else if s.weights is Some && s.weights->0.count != count {
        Some(
            "weight count must be "@ + decimal(count as nat) + ", got "@ + decimal(
                s.weights->0.count as nat,
            ),
        )
    } else if s.weights is Some && !s.weights->0.finite_positive {
        Some("weights must be finite and positive"@)
    } else if axis_failure("u"@, s.u_count as nat, s.u) is Some {
        axis_failure("u"@, s.u_count as nat, s.u)
    } else {
        axis_failure("v"@, s.v_count as nat, s.v)
    }
}

/// The prefix `trim loop L edge use U` of the messages about one edge use.
pub open spec fn use_label(l: nat, u: nat) -> Seq<char> {
    "trim loop "@ + decimal(l) + " edge use "@ + decimal(u)
}

/// Why the `u`-th use of loop `l` is invalid.
pub open spec fn trim_use_failure(f: TrimmedFaceLayout, l: int, u: int) -> Option<Seq<char>> {
    let eu = f.loops@[l]@[u];
    if eu.edge >= f.edges@.len() {
        Some(use_label(l as nat, u as nat) + " references missing edge "@ + decimal(eu.edge as nat))
    } else if curve_failure("2D curve"@, eu.pcurve) is Some {
        Some(use_label(l as nat, u as nat) + ": "@ + curve_failure("2D curve"@, eu.pcurve)->0)
    } else if !eu.range_matches {
        Some(use_label(l as nat, u as nat) + " does not share the 3D edge parameter range"@)
    } else {
        None
    }
}

/// The first failure among the loops, scanning from use `u` of loop `l` on.
pub open spec fn loops_failure_from(f: TrimmedFaceLayout, l: int, u: int) -> Option<Seq<char>>
    decreases f.loops@.len() - l, f.loops@[l]@.len() - u,
{
    if l < 0 || l >= f.loops@.len() || u < 0 {
        None
    } else if f.loops@[l]@.len() == 0 {
        Some("trim loop "@ + decimal(l as nat) + " is empty"@)
    } else if u >= f.loops@[l]@.len() {
        loops_failure_from(f, l + 1, 0)
    } else if trim_use_failure(f, l, u) is Some {
        trim_use_failure(f, l, u)
    } else {
        loops_failure_from(f, l, u + 1)
    }
}

/// The use refers to edge `e` (and, if asked, runs forward).
pub open spec fn use_matches(eu: TrimUseLayout, e: int, forward_only: bool) -> bool {
    eu.edge == e && (!forward_only || eu.orientation == TrimOrientation::Forward)
}

/// Matching uses among the first `n` uses of one loop.
pub open spec fn count_in_loop(lp: Seq<TrimUseLayout>, n: int, e: int, forward_only: bool) -> nat
    decreases n,
{
    if n <= 0 {
        0
    } else {
        count_in_loop(lp, n - 1, e, forward_only) + if use_matches(lp[n - 1], e, forward_only) {
            1nat
        } else {
            0nat
        }
    }
}

/// Matching uses in the first `l` loops.
pub open spec fn count_in_loops(loops: Seq<Vec<TrimUseLayout>>, l: int, e: int, forward_only: bool) -> nat
    decreases l,
{
    if l <= 0 {
        0
    } else {
        count_in_loops(loops, l - 1, e, forward_only) + count_in_loop(
            loops[l - 1]@,
            loops[l - 1]@.len() as int,
            e,
            forward_only,
        )
    }
}

/// How many times edge `e` is used by the loops.
pub open spec fn use_count(f: TrimmedFaceLayout, e: int) -> nat {
    count_in_loops(f.loops@, f.loops@.len() as int, e, false)
}

/// How many times edge `e` is used forward by the loops.
pub open spec fn forward_use_count(f: TrimmedFaceLayout, e: int) -> nat {
    count_in_loops(f.loops@, f.loops@.len() as int, e, true)
}

/// Why the uses of edge `e` are invalid: an edge is used once, or twice as a
/// seam (once in each orientation).
pub open spec fn edge_usage_failure(f: TrimmedFaceLayout, e: int) -> Option<Seq<char>> {
    let n = use_count(f, e);
    if n == 0 {
        Some("3D edge "@ + decimal(e as nat) + " is not used by a trim loop"@)
    } else if n == 1 {
        None
    } else if n == 2 {
        if forward_use_count(f, e) == 1 {
            None
        } else {
            Some("seam edge "@ + decimal(e as nat) + " must occur once in each orientation"@)
        }
    } else {
        Some("3D edge "@ + decimal(e as nat) + " occurs more than twice"@)
    }
}

/// The first edge from `e` on whose uses are invalid.
pub open spec fn usage_failure_from(f: TrimmedFaceLayout, e: int) -> Option<Seq<char>>
    decreases f.edges@.len() - e,
{
    if e < 0 || e >= f.edges@.len() {
        None
    } else if edge_usage_failure(f, e) is Some {
        edge_usage_failure(f, e)
    } else {
        usage_failure_from(f, e + 1)
    }
}

/// The first 3D edge from `i` on whose curve is invalid.
pub open spec fn edges_failure_from(f: TrimmedFaceLayout, i: int) -> Option<Seq<char>>
    decreases f.edges@.len() - i,
{
    if i < 0 || i >= f.edges@.len() {
        None
    } else if curve_failure("3D curve"@, f.edges@[i]) is Some {
        Some("edge "@ + decimal(i as nat) + ": "@ + curve_failure("3D curve"@, f.edges@[i])->0)
    } else {
        edges_failure_from(f, i + 1)
    }
}

/// Why a trimmed face is invalid, checks taken in order.
pub open spec fn face_failure(f: TrimmedFaceLayout) -> Option<Seq<char>> {
    if surface_failure(f.surface) is Some {
        surface_failure(f.surface)
    } else if !f.tolerance_positive {
        Some("trim tolerance must be finite and positive"@)
    } else if f.edges@.len() == 0 {
        Some("trim topology must contain at least one 3D edge"@)
    } else if f.edges@.len() > u32::MAX {
        Some("trim topology contains more than u32::MAX edges"@)
    } else if f.loops@.len() == 0 {
        Some("trim topology must contain an outer loop"@)
    } else if edges_failure_from(f, 0) is Some {
        edges_failure_from(f, 0)
    } else if loops_failure_from(f, 0, 0) is Some {
        loops_failure_from(f, 0, 0)
    } else {
        usage_failure_from(f, 0)
    }
}

/// The validations of a face that come before its edges and loops all pass.
pub open spec fn head_checks_pass(f: TrimmedFaceLayout) -> bool {
    &&& surface_failure(f.surface) is None
    &&& f.tolerance_positive
    &&& 0 < f.edges@.len() <= u32::MAX
    &&& f.loops@.len() > 0
}

/// Every axis of the face satisfies `axis_fits`.
pub open spec fn face_fits(f: TrimmedFaceLayout) -> bool {
    &&& axis_fits(f.surface.u_count, f.surface.u)
    &&& axis_fits(f.surface.v_count, f.surface.v)
    &&& forall|i: int|
        0 <= i < f.edges@.len() ==> #[trigger] axis_fits(f.edges@[i].control_count, f.edges@[i].axis)
    &&& forall|l: int, u: int|
        0 <= l < f.loops@.len() && 0 <= u < f.loops@[l]@.len() ==> #[trigger] axis_fits(
            f.loops@[l]@[u].pcurve.control_count,
            f.loops@[l]@[u].pcurve.axis,
        )
}

proof fn lemma_sum_prefix_le(s: Seq<u32>, i: int)
    requires
        0 <= i <= s.len(),
    ensures
        seq_sum(s.take(i)) <= seq_sum(s),
    decreases s.len(),
{
    if i == s.len() {
        assert(s.take(i) =~= s);
    } else {
        lemma_sum_prefix_le(s.drop_last(), i);
        assert(s.drop_last().take(i) =~= s.take(i));
    }
}

fn labelled(name: &str, rest: &str) -> (r: String)
    ensures
        r@ == name@ + rest@,
{
    let mut s = String::new();
    s.append(name);
    s.append(rest);
    assert(s@ =~= name@ + rest@);
    s
}

/// Check one axis of a B-spline with `control_count` control points along it.
pub fn validate_axis(name: &str, control_count: usize, axis: &KnotAxis) -> (r: Result<(), String>)
    requires
        axis_fits(control_count, *axis),
    ensures
        reason_of(r) == axis_failure(name@, control_count as nat, *axis),
{
    let m = &axis.multiplicities;
    if axis.degree == 0 || axis.degree as usize >= control_count {
        let mut s = labelled(name, " degree must be in 1..");
        push_decimal(&mut s, control_count as u64);
        assert(s@ =~= name@ + " degree must be in 1.."@ + decimal(control_count as nat));
        return Err(s);
    }
    if axis.knot_count < 2 || axis.knot_count != m.len() {
        return Err(labelled(name, " knots and multiplicities must have the same length of at least 2"));
    }
    if !axis.knots_increasing {
        return Err(labelled(name, " knots must be finite and strictly increasing"));
    }
    let top: u32 = axis.degree + 1;
    let n = m.len();
    for i in 0..n
        invariant
            n == m@.len(),
            m == &axis.multiplicities,
            top == axis.degree + 1,
            axis.degree != 0,
            axis.degree < control_count,
            axis.knot_count >= 2,
            axis.knot_count == m@.len(),
            axis.knots_increasing,
            forall|k: int| 0 <= k < i ==> #[trigger] multiplicity_ok(m@[k], axis.degree),
    {
        if m[i] == 0 || m[i] > top {
            assert(!multiplicity_ok(m@[i as int], axis.degree));
            let mut s = labelled(name, " multiplicities must be in 1..=");
            push_decimal(&mut s, top as u64);
            assert(s@ =~= name@ + " multiplicities must be in 1..="@ + decimal((axis.degree + 1) as nat));
            return Err(s);
        }
    }
    if !axis.periodic {
        let expected = match control_count.checked_add(axis.degree as usize + 1) {
            Some(v) => v,
            None => {
                return Err(labelled(name, " knot count overflow"));
            },
        };
        let mut actual: usize = 0;
        for i in 0..n
            invariant
                n == m@.len(),
                m == &axis.multiplicities,
                actual == seq_sum(m@.take(i as int)),
                axis.degree != 0,
                axis.degree < control_count,
                axis.knot_count >= 2,
                axis.knot_count == m@.len(),
                axis.knots_increasing,
                !axis.periodic,
                expected == control_count + axis.degree + 1,
                forall|k: int| 0 <= k < n ==> #[trigger] multiplicity_ok(m@[k], axis.degree),
        {
            assert(m@.take(i + 1).drop_last() =~= m@.take(i as int));
            match actual.checked_add(m[i] as usize) {
                Some(v) => {
                    actual = v;
                },
                None => {
                    proof {
                        lemma_sum_prefix_le(m@, i + 1);
                    }
                    return Err(labelled(name, " multiplicity sum overflow"));
                },
            }
        }
        assert(m@.take(n as int) =~= m@);
        if actual != expected {
            let mut s = labelled(name, " multiplicities must sum to ");
            push_decimal(&mut s, expected as u64);
            s.append(", got ");
            push_decimal(&mut s, actual as u64);
            assert(s@ =~= name@ + " multiplicities must sum to "@ + decimal(expected as nat) + ", got "@
                + decimal(actual as nat));
            return Err(s);
        }
    }
    Ok(())
}

/// Check a B-spline curve's data; `name` heads every message.
pub fn validate_curve(name: &str, c: &CurveLayout) -> (r: Result<(), String>)
    requires
        axis_fits(c.control_count, c.axis),
    ensures
        reason_of(r) == curve_failure(name@, *c),
{
    if c.control_count < 2 {
        return Err(labelled(name, " must contain at least two control points"));
    }
    if !c.points_finite {
        return Err(labelled(name, " control points must be finite"));
    }
    match &c.weights {
        Some(w) => {
            if w.count != c.control_count {
                let mut s = labelled(name, " weight count must be ");
                push_decimal(&mut s, c.control_count as u64);
                s.append(", got ");
                push_decimal(&mut s, w.count as u64);
                assert(s@ =~= name@ + " weight count must be "@ + decimal(c.control_count as nat)
                    + ", got "@ + decimal(w.count as nat));
                return Err(s);
            }
            if !w.finite_positive {
                return Err(labelled(name, " weights must be finite and positive"));
            }
        },
        None => {},
    }
    match validate_axis(name, c.control_count, &c.axis) {
        Err(e) => {
            return Err(e);
        },
        Ok(()) => {},
    }
    if !c.range_increasing {
        return Err(labelled(name, " parameter range must be finite and increasing"));
    }
    Ok(())
}

fn owned(text: &str) -> (r: String)
    ensures
        r@ == text@,
{
    let mut s = String::new();
    s.append(text);
    assert(s@ =~= text@);
    s
}

/// Check a B-spline surface's data.
pub fn validate_surface(s: &SurfaceLayout) -> (r: Result<(), String>)
    requires
        axis_fits(s.u_count, s.u),
        axis_fits(s.v_count, s.v),
    ensures
        reason_of(r) == surface_failure(*s),
{
    let count = match s.u_count.checked_mul(s.v_count) {
        Some(c) => c,
        None => {
            return Err(owned("control grid dimensions overflow"));
        },
    };
    if s.u_count < 2 || s.v_count < 2 {
        return Err(owned("control grid dimensions must both be at least 2"));
    }
    if s.control_count != count {
        let mut m = owned("control point count must be ");
        push_decimal(&mut m, count as u64);
        m.append(", got ");
        push_decimal(&mut m, s.control_count as u64);
        assert(m@ =~= "control point count must be "@ + decimal(count as nat) + ", got "@ + decimal(
            s.control_count as nat,
        ));
        return Err(m);
    }
    if !s.points_finite {
        return Err(owned("control points must be finite"));
    }
    match &s.weights {
        Some(w) => {
            if w.count != count {
                let mut m = owned("weight count must be ");
                push_decimal(&mut m, count as u64);
                m.append(", got ");
                push_decimal(&mut m, w.count as u64);
                assert(m@ =~= "weight count must be "@ + decimal(count as nat) + ", got "@ + decimal(
                    w.count as nat,
                ));
                return Err(m);
            }
            if !w.finite_positive {
                return Err(owned("weights must be finite and positive"));
            }
        },
        None => {},
    }
    match validate_axis("u", s.u_count, &s.u) {
        Err(e) => {
            return Err(e);
        },
        Ok(()) => {},
    }
    validate_axis("v", s.v_count, &s.v)
}

/// A count, saturated at three.
pub open spec fn at_most_three(n: nat) -> nat {
    if n > 3 {
        3
    } else {
        n
    }
}

proof fn lemma_forward_le_loop(lp: Seq<TrimUseLayout>, n: int, e: int)
    ensures
        count_in_loop(lp, n, e, true) <= count_in_loop(lp, n, e, false),
    decreases n,
{
    if n > 0 {
        lemma_forward_le_loop(lp, n - 1, e);
    }
}

proof fn lemma_forward_le(loops: Seq<Vec<TrimUseLayout>>, l: int, e: int)
    ensures
        count_in_loops(loops, l, e, true) <= count_in_loops(loops, l, e, false),
    decreases l,
{
    if l > 0 {
        lemma_forward_le(loops, l - 1, e);
        lemma_forward_le_loop(loops[l - 1]@, loops[l - 1]@.len() as int, e);
    }
}

fn push_use_label(s: &mut String, l: usize, u: usize)
    ensures
        final(s)@ == old(s)@ + use_label(l as nat, u as nat),
{
    s.append("trim loop ");
    push_decimal(s, l as u64);
    s.append(" edge use ");
    push_decimal(s, u as u64);
    assert(final(s)@ =~= old(s)@ + use_label(l as nat, u as nat));
}

fn zero_counts(n: usize) -> (r: Vec<usize>)
    ensures
        r@.len() == n,
        forall|i: int| 0 <= i < n ==> r@[i] == 0,
{
    let mut v: Vec<usize> = Vec::new();
    for i in 0..n
        invariant
            v@.len() == i,
            forall|k: int| 0 <= k < i ==> v@[k] == 0,
    {
        v.push(0);
    }
    v
}

/// Check a trimmed B-spline face: its surface, tolerance and edges, then
/// every use in every loop, then that each 3D edge is used once, or twice
/// as a seam in opposite orientations.
pub fn validate_trimmed_face(f: &TrimmedFaceLayout) -> (r: Result<(), String>)
    requires
        face_fits(*f),
    ensures
        reason_of(r) == face_failure(*f),
{
    match validate_surface(&f.surface) {
        Err(e) => {
            return Err(e);
        },
        Ok(()) => {},
    }
    if !f.tolerance_positive {
        return Err(owned("trim tolerance must be finite and positive"));
    }
    let ne = f.edges.len();
    if ne == 0 {
        return Err(owned("trim topology must contain at least one 3D edge"));
    }
    if ne > 4294967295usize {
        return Err(owned("trim topology contains more than u32::MAX edges"));
    }
    let nl = f.loops.len();
    if nl == 0 {
        return Err(owned("trim topology must contain an outer loop"));
    }
    for i in 0..ne
        invariant
            ne == f.edges@.len(),
            face_fits(*f),
            head_checks_pass(*f),
            edges_failure_from(*f, 0) == edges_failure_from(*f, i as int),
    {
        assert(axis_fits(f.edges@[i as int].control_count, f.edges@[i as int].axis));
        match validate_curve("3D curve", &f.edges[i]) {
            Err(reason) => {
                let mut s = owned("edge ");
                push_decimal(&mut s, i as u64);
                s.append(": ");
                s.append(reason.as_str());
                assert(s@ =~= "edge "@ + decimal(i as nat) + ": "@ + reason@);
                return Err(s);
            },
            Ok(()) => {},
        }
    }
    let mut total = zero_counts(ne);
    let mut forward = zero_counts(ne);
    for l in 0..nl
        invariant
            ne == f.edges@.len(),
            nl == f.loops@.len(),
            face_fits(*f),
            head_checks_pass(*f),
            edges_failure_from(*f, 0) is None,
            loops_failure_from(*f, 0, 0) == loops_failure_from(*f, l as int, 0),
            total@.len() == ne,
            forward@.len() == ne,
            forall|e: int|
                0 <= e < ne ==> #[trigger] total@[e] == at_most_three(
                    count_in_loops(f.loops@, l as int, e, false),
                ),
            forall|e: int|
                0 <= e < ne ==> #[trigger] forward@[e] == at_most_three(
                    count_in_loops(f.loops@, l as int, e, true),
                ),
    {
        let lp = &f.loops[l];
        let nu = lp.len();
        if nu == 0 {
            let mut s = owned("trim loop ");
            push_decimal(&mut s, l as u64);
            s.append(" is empty");
            assert(s@ =~= "trim loop "@ + decimal(l as nat) + " is empty"@);
            return Err(s);
        }
        for u in 0..nu
            invariant
                ne == f.edges@.len(),
                nl == f.loops@.len(),
                l < nl,
                lp@ == f.loops@[l as int]@,
                nu == lp@.len(),
                nu > 0,
                face_fits(*f),
                head_checks_pass(*f),
                edges_failure_from(*f, 0) is None,
                loops_failure_from(*f, 0, 0) == loops_failure_from(*f, l as int, u as int),
                total@.len() == ne,
                forward@.len() == ne,
                forall|e: int|
                    0 <= e < ne ==> #[trigger] total@[e] == at_most_three(
                        count_in_loops(f.loops@, l as int, e, false) + count_in_loop(
                            lp@,
                            u as int,
                            e,
                            false,
                        ),
                    ),
                forall|e: int|
                    0 <= e < ne ==> #[trigger] forward@[e] == at_most_three(
                        count_in_loops(f.loops@, l as int, e, true) + count_in_loop(
                            lp@,
                            u as int,
                            e,
                            true,
                        ),
                    ),
        {
            let eu = &lp[u];
            if eu.edge >= ne {
                let mut s = String::new();
                push_use_label(&mut s, l, u);
                s.append(" references missing edge ");
                push_decimal(&mut s, eu.edge as u64);
                assert(s@ =~= use_label(l as nat, u as nat) + " references missing edge "@ + decimal(
                    eu.edge as nat,
                ));
                return Err(s);
            }
            assert(axis_fits(
                f.loops@[l as int]@[u as int].pcurve.control_count,
                f.loops@[l as int]@[u as int].pcurve.axis,
            ));
            match validate_curve("2D curve", &eu.pcurve) {
                Err(reason) => {
                    let mut s = String::new();
                    push_use_label(&mut s, l, u);
                    s.append(": ");
                    s.append(reason.as_str());
                    assert(s@ =~= use_label(l as nat, u as nat) + ": "@ + reason@);
                    return Err(s);
                },
                Ok(()) => {},
            }
            if !eu.range_matches {
                let mut s = String::new();
                push_use_label(&mut s, l, u);
                s.append(" does not share the 3D edge parameter range");
                assert(s@ =~= use_label(l as nat, u as nat)
                    + " does not share the 3D edge parameter range"@);
                return Err(s);
            }
            assert(trim_use_failure(*f, l as int, u as int) is None);
            let e = eu.edge;
            if total[e] < 3 {
                let t = total[e] + 1;
                total.set(e, t);
            }
            let is_forward = match eu.orientation {
                TrimOrientation::Forward => true,
                TrimOrientation::Reversed => false,
            };
            if is_forward && forward[e] < 3 {
                let t = forward[e] + 1;
                forward.set(e, t);
            }
        }
        assert(loops_failure_from(*f, l as int, nu as int) == loops_failure_from(*f, l + 1, 0));
    }
    for e in 0..ne
        invariant
            ne == f.edges@.len(),
            nl == f.loops@.len(),
            head_checks_pass(*f),
            edges_failure_from(*f, 0) is None,
            loops_failure_from(*f, 0, 0) is None,
            usage_failure_from(*f, 0) == usage_failure_from(*f, e as int),
            total@.len() == ne,
            forward@.len() == ne,
            forall|k: int|
                0 <= k < ne ==> #[trigger] total@[k] == at_most_three(use_count(*f, k)),
            forall|k: int|
                0 <= k < ne ==> #[trigger] forward@[k] == at_most_three(forward_use_count(*f, k)),
    {
        let t = total[e];
        let fw = forward[e];
        proof {
            lemma_forward_le(f.loops@, nl as int, e as int);
        }
        if t == 0 {
            let mut s = owned("3D edge ");
            push_decimal(&mut s, e as u64);
            s.append(" is not used by a trim loop");
            assert(s@ =~= "3D edge "@ + decimal(e as nat) + " is not used by a trim loop"@);
            return Err(s);
        }
        if t == 2 && fw != 1 {
            let mut s = owned("seam edge ");
            push_decimal(&mut s, e as u64);
            s.append(" must occur once in each orientation");
            assert(s@ =~= "seam edge "@ + decimal(e as nat) + " must occur once in each orientation"@);
            return Err(s);
        }
        if t > 2 {
            let mut s = owned("3D edge ");
            push_decimal(&mut s, e as u64);
            s.append(" occurs more than twice");
            assert(s@ =~= "3D edge "@ + decimal(e as nat) + " occurs more than twice"@);
            return Err(s);
        }
    }
    Ok(())
}

/// Why the kernel refused a trimmed face, by its status code.
pub open spec fn trimmed_status_reason(status: u32) -> Seq<char> {
    if status == 1 {
        "invalid exchange data"@
    } else if status == 2 {
        "invalid B-spline surface"@
    } else if status == 3 {
        "invalid 3D edge curve"@
    } else if status == 4 {
        "invalid p-curve or parameter range"@
    } else if status == 5 {
        "invalid periodic seam occurrences"@
    } else if status == 6 {
        "ordered edges do not form closed wires"@
    } else if status == 7 {
        "3D curve and p-curve are inconsistent on the surface"@
    } else if status == 8 {
        "constructed face topology is invalid"@
    } else {
        "OCCT kernel failure"@
    }
}

/// The error for a trimmed face that the kernel refused with `status`.
pub fn trimmed_face_kernel_failure(status: u32) -> (r: Error)
    ensures
        r matches Error::TrimmedFaceFailed(m) && m@ == trimmed_status_reason(status),
{
    let reason = if status == 1 {
        "invalid exchange data"
    } else if status == 2 {
        "invalid B-spline surface"
    } else if status == 3 {
        "invalid 3D edge curve"
    } else if status == 4 {
        "invalid p-curve or parameter range"
    } else if status == 5 {
        "invalid periodic seam occurrences"
    } else if status == 6 {
        "ordered edges do not form closed wires"
    } else if status == 7 {
        "3D curve and p-curve are inconsistent on the surface"
    } else if status == 8 {
        "constructed face topology is invalid"
    } else {
        "OCCT kernel failure"
    };
    Error::TrimmedFaceFailed(owned(reason))
}

/// Check a trimmed face before handing it to the kernel; a failure becomes
/// `TrimmedFaceFailed` with the reason.
pub fn check_trimmed_face(f: &TrimmedFaceLayout) -> (r: Result<(), Error>)
    requires
        face_fits(*f),
    ensures
        face_failure(*f) is None <==> r is Ok,
        face_failure(*f) is Some ==> (r matches Err(Error::TrimmedFaceFailed(m)) && m@ == face_failure(
            *f,
        )->0),
{
    match validate_trimmed_face(f) {
        Ok(()) => Ok(()),
        Err(reason) => Err(Error::TrimmedFaceFailed(reason)),
    }
}

/// Check a trimmed face read back from the kernel: `complete` says whether
/// the kernel could expose its whole topology.
pub fn check_extracted_face(complete: bool, f: &TrimmedFaceLayout) -> (r: Result<(), Error>)
    requires
        face_fits(*f),
    ensures
        r is Ok <==> complete && face_failure(*f) is None,
        !complete ==> (r matches Err(Error::TrimmedFaceFailed(m))
            && m@ == "OCCT could not expose complete trimmed B-spline topology"@),
        complete && face_failure(*f) is Some ==> (r matches Err(Error::TrimmedFaceFailed(m)) && m@
            == face_failure(*f)->0),
{
    if !complete {
        return Err(Error::TrimmedFaceFailed(owned("OCCT could not expose complete trimmed B-spline topology")));
    }
    check_trimmed_face(f)
}

/// Check a 3D B-spline curve before building an edge from it; a failure
/// becomes `BsplineFailed` with the reason.
pub fn check_bspline_curve(c: &CurveLayout) -> (r: Result<(), Error>)
    requires
        axis_fits(c.control_count, c.axis),
    ensures
        curve_failure("3D curve"@, *c) is None <==> r is Ok,
        curve_failure("3D curve"@, *c) is Some ==> (r matches Err(Error::BsplineFailed(m)) && m@
            == curve_failure("3D curve"@, *c)->0),
{
    match validate_curve("3D curve", c) {
        Ok(()) => Ok(()),
        Err(reason) => Err(Error::BsplineFailed(reason)),
    }
}

proof fn lemma_usage_none(f: TrimmedFaceLayout, e: int)
    requires
        0 <= e,
        usage_failure_from(f, e) is None,
    ensures
        forall|k: int| e <= k < f.edges@.len() ==> #[trigger] edge_usage_failure(f, k) is None,
    decreases f.edges@.len() - e,
{
    if e < f.edges@.len() {
        lemma_usage_none(f, e + 1);
    }
}

proof fn lemma_loop_uses_none(f: TrimmedFaceLayout, l: int, u: int)
    requires
        0 <= l < f.loops@.len(),
        0 <= u,
        loops_failure_from(f, l, u) is None,
    ensures
        forall|k: int| u <= k < f.loops@[l]@.len() ==> #[trigger] trim_use_failure(f, l, k) is None,
        loops_failure_from(f, l + 1, 0) is None,
    decreases f.loops@[l]@.len() - u,
{
    if u < f.loops@[l]@.len() {
        lemma_loop_uses_none(f, l, u + 1);
    }
}

proof fn lemma_loops_none(f: TrimmedFaceLayout, l: int)
    requires
        0 <= l,
        loops_failure_from(f, l, 0) is None,
    ensures
        forall|j: int, k: int|
            l <= j < f.loops@.len() && 0 <= k < f.loops@[j]@.len() ==> #[trigger] trim_use_failure(
                f,
                j,
                k,
            ) is None,
        forall|j: int| l <= j < f.loops@.len() ==> #[trigger] f.loops@[j]@.len() > 0,
    decreases f.loops@.len() - l,
{
    if l < f.loops@.len() {
        lemma_loop_uses_none(f, l, 0);
        lemma_loops_none(f, l + 1);
    }
}

/// A face that passes validation has a well-formed trim topology: every loop
/// is non-empty, every use names an existing 3D edge, and every 3D edge is
/// used once, or twice as a seam (once in each orientation).
pub proof fn lemma_valid_face_topology(f: TrimmedFaceLayout)
    requires
        face_failure(f) is None,
    ensures
        f.loops@.len() > 0,
        forall|l: int| 0 <= l < f.loops@.len() ==> #[trigger] f.loops@[l]@.len() > 0,
        forall|l: int, u: int|
            0 <= l < f.loops@.len() && 0 <= u < f.loops@[l]@.len() ==> #[trigger] f.loops@[l]@[u].edge
                < f.edges@.len(),
        forall|e: int|
            0 <= e < f.edges@.len() ==> #[trigger] use_count(f, e) == 1 || (use_count(f, e) == 2
                && forward_use_count(f, e) == 1),
{
    lemma_loops_none(f, 0);
    lemma_usage_none(f, 0);
    assert forall|l: int, u: int|
        0 <= l < f.loops@.len() && 0 <= u < f.loops@[l]@.len() implies #[trigger] f.loops@[l]@[u].edge
        < f.edges@.len() by {
        assert(trim_use_failure(f, l, u) is None);
    }
    assert forall|e: int| 0 <= e < f.edges@.len() implies #[trigger] use_count(f, e) == 1 || (use_count(
        f,
        e,
    ) == 2 && forward_use_count(f, e) == 1) by {
        assert(edge_usage_failure(f, e) is None);
    }
}

/// Which knot axes are accepted: a degree from 1 to below the control count,
/// at least two strictly increasing knots with one multiplicity each, every
/// multiplicity in `1..=degree + 1`, and, unless the axis is periodic,
/// multiplicities that sum to the control count plus the degree plus one.
pub proof fn lemma_axis_accepted(name: Seq<char>, control_count: nat, a: KnotAxis)
    ensures
        axis_failure(name, control_count, a) is None <==> (1 <= a.degree < control_count && 2
            <= a.knot_count == a.multiplicities@.len() && a.knots_increasing && (forall|i: int|
            0 <= i < a.multiplicities@.len() ==> #[trigger] multiplicity_ok(a.multiplicities@[i], a.degree))
            && (a.periodic || (seq_sum(a.multiplicities@) == control_count + a.degree + 1
            && control_count + a.degree + 1 <= usize::MAX))),
{
}

} // verus!
